//! Layered memory for specialized agents:
//! 1) short-term conversation context,
//! 2) interaction summary cards (condensed snapshots),
//! 3) learning memory (error/correction patterns),
//! 4) permanent memory (long-term source of truth).
use crate::text::{
    chars_of, copy_string, copy_strings, lowercase, owned, pieces, push_char, push_chars,
    push_str, split_char, split_on, trim, trim_chars, views, vviews,
};
use vstd::prelude::*;

verus! {

// ---------------------------------------------------------------------------
// Outside calls
// ---------------------------------------------------------------------------

/// A fresh random identifier: `uuid::Uuid::new_v4()` as its 128-bit value.
/// Nothing is stated of the value, which is random.
#[verifier::external_body]
pub(crate) fn fresh_id() -> (id: u128) {
    uuid::Uuid::new_v4().as_u128()
}

/// Seconds since the Unix epoch from the system clock (0 when the clock is
/// before the epoch).  Nothing is stated of the value, which is the time.
#[verifier::external_body]
pub(crate) fn unix_now() -> (t: u64) {
    std::time::SystemTime::now().duration_since(std::time::UNIX_EPOCH).map(|d| d.as_secs()).unwrap_or(0)
}

// ---------------------------------------------------------------------------
// Interactions and short-term memory
// ---------------------------------------------------------------------------

/// Role of a message in an interaction.
#[derive(Clone, Copy, Debug, PartialEq, Eq, Structural)]
pub enum MessageRole {
    System,
    User,
    Assistant,
    Tool,
}

/// Atomic message item.
#[derive(Debug)]
pub struct Message {
    pub role: MessageRole,
    pub content: String,
}

/// Interaction envelope used by the short-term and summary layers.
/// `interaction_id` is the 128-bit value of a random (v4) UUID.
#[derive(Debug)]
pub struct InteractionRecord {
    pub interaction_id: u128,
    pub objective: String,
    pub messages: Vec<Message>,
    pub final_answer: String,
    pub tags: Vec<String>,
}

impl InteractionRecord {
    pub fn new(objective: &str, final_answer: &str) -> (r: Self)
        ensures
            r.objective@ == objective@,
            r.final_answer@ == final_answer@,
            r.messages@.len() == 0,
            r.tags@.len() == 0,
    {
        InteractionRecord {
            interaction_id: fresh_id(),
            objective: owned(objective),
            messages: Vec::new(),
            final_answer: owned(final_answer),
            tags: Vec::new(),
        }
    }
}

/// A copy of a message.
pub fn copy_message(m: &Message) -> (r: Message)
    ensures
        r.role == m.role,
        r.content@ == m.content@,
{
    Message { role: m.role, content: copy_string(&m.content) }
}

/// Two interaction records agree field by field (texts by their views).
pub open spec fn same_interaction(a: InteractionRecord, b: InteractionRecord) -> bool {
    &&& a.interaction_id == b.interaction_id
    &&& a.objective@ == b.objective@
    &&& a.final_answer@ == b.final_answer@
    &&& views(a.tags@) == views(b.tags@)
    &&& a.messages@.len() == b.messages@.len()
    &&& forall|i: int|
        0 <= i < a.messages@.len() ==> (#[trigger] a.messages@[i]).role == b.messages@[i].role
            && a.messages@[i].content@ == b.messages@[i].content@
}

/// A copy of an interaction record.
pub fn copy_interaction(x: &InteractionRecord) -> (r: InteractionRecord)
    ensures
        same_interaction(*x, r),
{
    let mut messages: Vec<Message> = Vec::new();
    let mut i: usize = 0;
    while i < x.messages.len()
        invariant
            i <= x.messages@.len(),
            messages@.len() == i,
            forall|j: int|
                0 <= j < i ==> (#[trigger] messages@[j]).role == x.messages@[j].role
                    && messages@[j].content@ == x.messages@[j].content@,
        decreases x.messages.len() - i,
    {
        messages.push(copy_message(&x.messages[i]));
        i = i + 1;
    }
    InteractionRecord {
        interaction_id: x.interaction_id,
        objective: copy_string(&x.objective),
        messages,
        final_answer: copy_string(&x.final_answer),
        tags: copy_strings(&x.tags),
    }
}

/// Recent context memory with bounded size.  `recent_interactions` holds
/// at most `capacity` records, oldest first.
#[derive(Debug)]
pub struct ShortTermMemory {
    capacity: usize,
    recent_interactions: Vec<InteractionRecord>,
}

impl ShortTermMemory {
    /// Well-formed: a positive capacity bounds the records held.
    pub closed spec fn wf(&self) -> bool {
        self.capacity > 0 && self.recent_interactions@.len() <= self.capacity
    }

    /// The capacity.
    pub closed spec fn cap(&self) -> nat {
        self.capacity as nat
    }

    /// The records held, oldest first.
    pub closed spec fn items(&self) -> Seq<InteractionRecord> {
        self.recent_interactions@
    }

    pub fn with_capacity(capacity: usize) -> (r: Result<Self, MemoryError>)
        ensures
            match r {
                Ok(m) => capacity > 0 && m.wf() && m.cap() == capacity && m.items().len() == 0,
                Err(e) => capacity == 0 && e is InvalidCapacity,
            },
    {
        if capacity == 0 {
            return Err(MemoryError::InvalidCapacity);
        }
        Ok(ShortTermMemory { capacity, recent_interactions: Vec::new() })
    }

    /// Appends an interaction, evicting the oldest one when full.
    pub fn push(&mut self, interaction: InteractionRecord)
        requires
            old(self).wf(),
        ensures
            final(self).wf(),
            final(self).cap() == old(self).cap(),
            0 < final(self).items().len() <= final(self).cap(),
            final(self).items() == (if old(self).items().len() == old(self).cap() {
                old(self).items().drop_first()
            } else {
                old(self).items()
            }).push(interaction),
    {
        if self.recent_interactions.len() == self.capacity {
            self.recent_interactions.remove(0);
        }
        self.recent_interactions.push(interaction);
    }

    /// The held records, oldest first.
    pub fn recent(&self) -> (r: &Vec<InteractionRecord>)
        ensures
            r@ == self.items(),
            self.wf() ==> r@.len() <= self.cap(),
    {
        &self.recent_interactions
    }
}

/// Pushing into a short-term memory keeps the most recent records, at most
/// `capacity` of them, in arrival order.
pub proof fn law_short_term_keeps_most_recent(
    before: Seq<InteractionRecord>,
    cap: nat,
    x: InteractionRecord,
)
    requires
        cap > 0,
        before.len() <= cap,
    ensures
        ({
            let after = (if before.len() == cap {
                before.drop_first()
            } else {
                before
            }).push(x);
            &&& after.len() <= cap
            &&& after.last() == x
            &&& after == (before.push(x)).skip(before.push(x).len() - after.len())
            &&& after.len() == if before.len() + 1 <= cap {
                before.len() + 1
            } else {
                cap
            }
        }),
{
    let after = (if before.len() == cap {
        before.drop_first()
    } else {
        before
    }).push(x);
    assert(after =~= (before.push(x)).skip(before.push(x).len() - after.len()));
}

// ---------------------------------------------------------------------------
// Summary cards
// ---------------------------------------------------------------------------

/// Condensed card for one interaction (a lossy summary).
#[derive(Debug)]
pub struct InteractionSummaryCard {
    pub interaction_id: u128,
    pub objective: String,
    pub user_intent: String,
    pub answer_summary: String,
    pub key_points: Vec<String>,
    pub follow_up_actions: Vec<String>,
    pub tags: Vec<String>,
}

/// At most `limit` characters, followed by `...` when the text was cut.
pub open spec fn truncated(s: Seq<char>, limit: nat) -> Seq<char> {
    if s.len() <= limit {
        s
    } else {
        s.take(limit as int) + "..."@
    }
}

/// The text cut to `limit` characters, with `...` appended when cut.
pub fn truncate(input: &str, limit: usize) -> (r: String)
    ensures
        r@ == truncated(input@, limit as nat),
{
    let v = chars_of(input);
    if v.len() <= limit {
        return owned(input);
    }
    let mut r = String::new();
    let mut i: usize = 0;
    while i < limit
        invariant
            i <= limit < v@.len(),
            r@ == v@.take(i as int),
        decreases limit - i,
    {
        push_char(&mut r, v[i]);
        i = i + 1;
        assert(r@ =~= v@.take(i as int));
    }
    push_str(&mut r, "...");
    r
}

/// Strategy to summarize an interaction; `summarizes` states which cards an
/// implementation may produce for an interaction.
pub trait InteractionSummarizer {
    spec fn summarizes(&self, interaction: InteractionRecord, card: InteractionSummaryCard) -> bool;

    fn summarize(&self, interaction: &InteractionRecord) -> (card: InteractionSummaryCard)
        ensures
            self.summarizes(*interaction, card),
    ;
}

/// The first user message of an interaction, if any.
pub open spec fn first_user_message(ms: Seq<Message>) -> Option<Seq<char>> {
    if exists|i: int| 0 <= i < ms.len() && ms[i].role == MessageRole::User {
        let i = choose|i: int|
            0 <= i < ms.len() && ms[i].role == MessageRole::User && forall|j: int|
                0 <= j < i ==> ms[j].role != MessageRole::User;
        Some(ms[i].content@)
    } else {
        None
    }
}

/// Up to three non-empty trimmed sentences of an answer.
pub open spec fn key_points_of(answer: Seq<char>) -> Seq<Seq<char>> {
    if answer.len() == 0 {
        seq!["No answer generated"@]
    } else {
        let parts = split_on(answer, '.');
        let trimmed = Seq::new(parts.len(), |i: int| trim(parts[i]));
        let kept = trimmed.filter(|x: Seq<char>| x.len() > 0);
        if kept.len() <= 3 {
            kept
        } else {
            kept.take(3)
        }
    }
}

/// The card the heuristic summarizer produces for an interaction.
pub open spec fn heuristic_card(i: InteractionRecord, c: InteractionSummaryCard) -> bool {
    &&& c.interaction_id == i.interaction_id
    &&& c.objective@ == i.objective@
    &&& c.user_intent@ == truncated(
        match first_user_message(i.messages@) {
            Some(m) => m,
            None => i.objective@,
        },
        200,
    )
    &&& c.answer_summary@ == truncated(i.final_answer@, 240)
    &&& views(c.key_points@) == key_points_of(i.final_answer@)
    &&& c.follow_up_actions@.len() == 0
    &&& views(c.tags@) == views(i.tags@)
}

/// Baseline summarizer with deterministic heuristics.
#[derive(Debug, Default, Clone)]
pub struct HeuristicSummarizer;

impl InteractionSummarizer for HeuristicSummarizer {
    open spec fn summarizes(&self, interaction: InteractionRecord, card: InteractionSummaryCard) -> bool {
        heuristic_card(interaction, card)
    }

    fn summarize(&self, interaction: &InteractionRecord) -> (card: InteractionSummaryCard) {
        let mut i: usize = 0;
        while i < interaction.messages.len() && interaction.messages[i].role != MessageRole::User
            invariant
                i <= interaction.messages@.len(),
                forall|j: int| 0 <= j < i ==> interaction.messages@[j].role != MessageRole::User,
            decreases interaction.messages.len() - i,
        {
            i = i + 1;
        }
        let user_intent = if i < interaction.messages.len() {
            proof {
                let ms = interaction.messages@;
                let c = choose|c: int|
                    0 <= c < ms.len() && ms[c].role == MessageRole::User && forall|j: int|
                        0 <= j < c ==> ms[j].role != MessageRole::User;
                if c < i {
                    assert(ms[c].role != MessageRole::User);
                } else if i < c {
                    assert(ms[i as int].role != MessageRole::User);
                }
            }
            truncate(interaction.messages[i].content.as_str(), 200)
        } else {
            truncate(interaction.objective.as_str(), 200)
        };
        let answer_summary = truncate(interaction.final_answer.as_str(), 240);
        let key_points = key_points(interaction.final_answer.as_str());
        InteractionSummaryCard {
            interaction_id: interaction.interaction_id,
            objective: copy_string(&interaction.objective),
            user_intent,
            answer_summary,
            key_points,
            follow_up_actions: Vec::new(),
            tags: copy_strings(&interaction.tags),
        }
    }
}

/// Up to three non-empty trimmed sentences of `answer` (or a placeholder
/// when the answer is empty).
pub fn key_points(answer: &str) -> (r: Vec<String>)
    ensures
        views(r@) == key_points_of(answer@),
{
    let v = chars_of(answer);
    if v.len() == 0 {
        let r = vec![owned("No answer generated")];
        assert(views(r@) =~= seq!["No answer generated"@]);
        return r;
    }
    let parts = split_char(&v, '.');
    let ghost ps = split_on(answer@, '.');
    let ghost trimmed = Seq::new(ps.len(), |i: int| trim(ps[i]));
    let ghost pred = |x: Seq<char>| x.len() > 0;
    let mut r: Vec<String> = Vec::new();
    let mut i: usize = 0;
    assert(trimmed.take(0).filter(pred) =~= Seq::<Seq<char>>::empty()) by {
        reveal_with_fuel(Seq::filter, 1);
    }
    while i < parts.len() && r.len() < 3
        invariant
            i <= parts@.len(),
            vviews(parts@) == ps,
            trimmed == Seq::new(ps.len(), |i: int| trim(ps[i])),
            pred == (|x: Seq<char>| x.len() > 0),
            views(r@) == trimmed.take(i as int).filter(pred),
            r@.len() <= 3,
        decreases parts.len() - i,
    {
        let t = trim_chars(&parts[i]);
        assert(t@ == trimmed[i as int]);
        proof {
            assert(trimmed.take(i + 1) =~= trimmed.take(i as int).push(trimmed[i as int]));
            trimmed.take(i as int).lemma_filter_push(trimmed[i as int], pred);
        }
        if t.len() > 0 {
            let ghost before = views(r@);
            let s = crate::text::string_of(&t);
            r.push(s);
            assert(views(r@) =~= before.push(t@));
        }
        i = i + 1;
    }
    proof {
        let kept = trimmed.filter(pred);
        lemma_filter_prefix_take(trimmed, pred, i as int);
        if r@.len() < 3 {
            assert(i == parts@.len());
            assert(trimmed.take(i as int) =~= trimmed);
        }
    }
    r
}

/// Filtering a prefix yields a prefix of the filtered sequence; when it
/// already holds three items, those are the first three of the whole.
proof fn lemma_filter_prefix_take(s: Seq<Seq<char>>, pred: spec_fn(Seq<char>) -> bool, i: int)
    requires
        0 <= i <= s.len(),
    ensures
        s.take(i).filter(pred).len() <= s.filter(pred).len(),
        s.take(i).filter(pred) == s.filter(pred).take(s.take(i).filter(pred).len() as int),
    decreases s.len() - i,
{
    if i < s.len() {
        lemma_filter_prefix_take(s, pred, i + 1);
        assert(s.take(i + 1) =~= s.take(i).push(s[i]));
        s.take(i).lemma_filter_push(s[i], pred);
    } else {
        assert(s.take(i) =~= s);
    }
}

// ---------------------------------------------------------------------------
// Learning memory
// ---------------------------------------------------------------------------

/// Error and correction pair used to improve future runs.
#[derive(Debug)]
pub struct ErrorCorrection {
    pub error_signature: String,
    pub root_cause: String,
    pub correction: String,
    pub prevention_rule: String,
}

/// Learning entry.  `confidence_gain_milli` is the confidence gain in
/// thousandths (100 for a gain of 0.1).
#[derive(Debug)]
pub struct LearningEntry {
    pub id: u128,
    pub interaction_id: Option<u128>,
    pub correction: ErrorCorrection,
    pub confidence_gain_milli: u32,
}

/// Learning memory: entries in insertion order.
#[derive(Debug, Default)]
pub struct LearningMemory {
    entries: Vec<LearningEntry>,
}

/// Entries whose error signature is `sig`, in insertion order.
pub open spec fn with_signature(es: Seq<LearningEntry>, sig: Seq<char>) -> Seq<LearningEntry>
    decreases es.len(),
{
    if es.len() == 0 {
        Seq::empty()
    } else {
        let rest = with_signature(es.drop_last(), sig);
        if es.last().correction.error_signature@ == sig {
            rest.push(es.last())
        } else {
            rest
        }
    }
}

impl LearningMemory {
    /// The entries, in insertion order.
    pub closed spec fn items(&self) -> Seq<LearningEntry> {
        self.entries@
    }

    pub fn new() -> (r: Self)
        ensures
            r.items().len() == 0,
    {
        LearningMemory { entries: Vec::new() }
    }

    pub fn add(&mut self, entry: LearningEntry)
        ensures
            final(self).items() == old(self).items().push(entry),
    {
        self.entries.push(entry);
    }

    /// Entries recorded for an error signature, oldest first.
    pub fn by_error_signature(&self, signature: &str) -> (r: Vec<&LearningEntry>)
        ensures
            r@.len() == with_signature(self.items(), signature@).len(),
            forall|i: int| 0 <= i < r@.len() ==> *r@[i] == with_signature(self.items(), signature@)[i],
    {
        let sig = chars_of(signature);
        let mut r: Vec<&LearningEntry> = Vec::new();
        let mut i: usize = 0;
        while i < self.entries.len()
            invariant
                i <= self.entries@.len(),
                sig@ == signature@,
                r@.len() == with_signature(self.entries@.take(i as int), signature@).len(),
                forall|j: int|
                    0 <= j < r@.len() ==> *r@[j] == with_signature(
                        self.entries@.take(i as int),
                        signature@,
                    )[j],
            decreases self.entries.len() - i,
        {
            assert(self.entries@.take(i + 1).drop_last() =~= self.entries@.take(i as int));
            let e = &self.entries[i];
            let es = chars_of(e.correction.error_signature.as_str());
            if crate::text::chars_eq(&es, &sig) {
                r.push(e);
            }
            i = i + 1;
        }
        assert(self.entries@.take(self.entries@.len() as int) =~= self.entries@);
        r
    }

    pub fn len(&self) -> (n: usize)
        ensures
            n == self.items().len(),
    {
        self.entries.len()
    }

    pub fn is_empty(&self) -> (b: bool)
        ensures
            b == (self.items().len() == 0),
    {
        self.entries.len() == 0
    }

    pub fn entries(&self) -> (r: &Vec<LearningEntry>)
        ensures
            r@ == self.items(),
    {
        &self.entries
    }
}

// ---------------------------------------------------------------------------
// Errors
// ---------------------------------------------------------------------------

/// Errors of the memory layers.
#[derive(Debug)]
pub enum MemoryError {
    InvalidCapacity,
    EntryAlreadyExists { key: String },
    EntryNotFound { key: String },
    CriticalOverwriteBlocked { key: String },
    RevisionConflict { key: String, expected: u64, actual: u64 },
}

// ---------------------------------------------------------------------------
// Permanent memory
// ---------------------------------------------------------------------------

/// Importance level for permanent memory records (`Normal < High < Critical`).
#[derive(Clone, Copy, Debug, PartialEq, Eq, PartialOrd, Ord, Structural)]
pub enum MemoryPriority {
    Normal,
    High,
    Critical,
}

/// Semantic category for durable knowledge.
#[derive(Clone, Copy, Debug, PartialEq, Eq, Structural)]
pub enum PermanentMemoryKind {
    UserPreference,
    LongTermObjective,
    ArchitectureDecision,
    SystemRule,
    BusinessConstraint,
    DevelopmentConvention,
    Other,
}

/// Durable source-of-truth entry with explicit revisions.
#[derive(Debug)]
pub struct PermanentMemoryEntry {
    pub key: String,
    pub kind: PermanentMemoryKind,
    pub value: String,
    pub priority: MemoryPriority,
    pub source: Option<String>,
    pub revision: u64,
    pub updated_at_unix: u64,
}

/// What a permanent entry holds, apart from its key and its time stamp.
pub struct PermanentEntryView {
    pub kind: PermanentMemoryKind,
    pub value: Seq<char>,
    pub priority: MemoryPriority,
    pub source: Option<Seq<char>>,
    pub revision: u64,
}

/// The view of an entry.
pub open spec fn entry_view(e: PermanentMemoryEntry) -> PermanentEntryView {
    PermanentEntryView {
        kind: e.kind,
        value: e.value@,
        priority: e.priority,
        source: match e.source {
            Some(s) => Some(s@),
            None => None,
        },
        revision: e.revision,
    }
}

impl PermanentMemoryEntry {
    /// A new entry at its first revision, without source, stamped with the
    /// clock reading taken now.
    pub fn new(key: &str, kind: PermanentMemoryKind, value: &str, priority: MemoryPriority) -> (r: Self)
        ensures
            r.key@ == key@,
            r.kind == kind,
            r.value@ == value@,
            r.priority == priority,
            r.source is None,
            r.revision == 1,
    {
        let now = unix_now();
        Self::new_at(key, kind, value, priority, now)
    }

    /// A new entry at its first revision, without source, stamped with the
    /// given time in Unix seconds.
    pub fn new_at(key: &str, kind: PermanentMemoryKind, value: &str, priority: MemoryPriority, now: u64) -> (r: Self)
        ensures
            r.key@ == key@,
            r.kind == kind,
            r.value@ == value@,
            r.priority == priority,
            r.source is None,
            r.revision == 1,
            r.updated_at_unix == now,
    {
        PermanentMemoryEntry {
            key: owned(key),
            kind,
            value: owned(value),
            priority,
            source: None,
            revision: 1,
            updated_at_unix: now,
        }
    }
}

/// Explicit update command for permanent entries.
#[derive(Debug)]
pub struct PermanentMemoryUpdate {
    pub key: String,
    pub new_value: String,
    pub new_priority: Option<MemoryPriority>,
    pub reason: String,
    pub expected_revision: Option<u64>,
}

/// Mutation policy protecting critical permanent records.
#[derive(Clone, Copy, Debug, PartialEq, Eq, Structural)]
pub enum OverwritePolicy {
    Safe,
    Force,
}

/// The entry after a successful update.
pub open spec fn updated_view(e: PermanentEntryView, u: PermanentMemoryUpdate) -> PermanentEntryView {
    PermanentEntryView {
        kind: e.kind,
        value: u.new_value@,
        priority: match u.new_priority {
            Some(p) => p,
            None => e.priority,
        },
        source: e.source,
        revision: (e.revision + 1) as u64,
    }
}

/// Contents of a permanent store: key to entry.
pub type PermanentContents = Map<Seq<char>, PermanentEntryView>;

/// What an insertion does and answers.
pub open spec fn insert_outcome(
    before: PermanentContents,
    after: PermanentContents,
    e: PermanentMemoryEntry,
    r: Result<(), MemoryError>,
) -> bool {
    if before.contains_key(e.key@) {
        &&& r matches Err(MemoryError::EntryAlreadyExists { key }) && key@ == e.key@
        &&& after == before
    } else {
        &&& r is Ok
        &&& after == before.insert(e.key@, entry_view(e))
    }
}

/// What an update does and answers.
pub open spec fn update_outcome(
    before: PermanentContents,
    after: PermanentContents,
    u: PermanentMemoryUpdate,
    policy: OverwritePolicy,
    r: Result<(), MemoryError>,
) -> bool {
    let k = u.key@;
    if !before.contains_key(k) {
        &&& r matches Err(MemoryError::EntryNotFound { key }) && key@ == k
        &&& after == before
    } else if before[k].priority == MemoryPriority::Critical && policy != OverwritePolicy::Force {
        &&& r matches Err(MemoryError::CriticalOverwriteBlocked { key }) && key@ == k
        &&& after == before
    } else if u.expected_revision.is_some() && u.expected_revision.unwrap() != before[k].revision {
        &&& r matches Err(MemoryError::RevisionConflict { key, expected, actual }) && key@ == k
            && expected == u.expected_revision.unwrap() && actual == before[k].revision
        &&& after == before
    } else {
        &&& r is Ok
        &&& after == before.insert(k, updated_view(before[k], u))
    }
}

/// Storage for permanent memory.  `contents` is what the store holds;
/// `list` gives it in increasing key order.
pub trait PermanentMemoryBackend {
    spec fn contents(&self) -> PermanentContents;

    spec fn wf(&self) -> bool;

    fn insert(&mut self, entry: PermanentMemoryEntry) -> (r: Result<(), MemoryError>)
        requires
            old(self).wf(),
        ensures
            final(self).wf(),
            insert_outcome(old(self).contents(), final(self).contents(), entry, r),
    ;

    fn update(&mut self, update: PermanentMemoryUpdate, policy: OverwritePolicy) -> (r: Result<
        (),
        MemoryError,
    >)
        requires
            old(self).wf(),
            old(self).contents().contains_key(update.key@) ==> old(self).contents()[update.key@].revision
                < u64::MAX,
        ensures
            final(self).wf(),
            update_outcome(old(self).contents(), final(self).contents(), update, policy, r),
    ;

    fn get(&self, key: &str) -> (r: Option<&PermanentMemoryEntry>)
        requires
            self.wf(),
        ensures
            match r {
                Some(e) => self.contents().contains_key(key@) && e.key@ == key@ && entry_view(*e)
                    == self.contents()[key@],
                None => !self.contents().contains_key(key@),
            },
    ;

    fn list(&self) -> (r: Vec<&PermanentMemoryEntry>)
        requires
            self.wf(),
        ensures
            lists_contents(r@, self.contents()),
    ;
}

/// Keys of a sequence of entries.
pub open spec fn entry_keys(es: Seq<PermanentMemoryEntry>) -> Seq<Seq<char>> {
    Seq::new(es.len(), |i: int| es[i].key@)
}

/// Keys of a sequence of entry references.
pub open spec fn ref_keys(es: Seq<&PermanentMemoryEntry>) -> Seq<Seq<char>> {
    Seq::new(es.len(), |i: int| es[i].key@)
}

/// `es` lists the contents `c`, one entry per key, keys increasing.
pub open spec fn lists_contents(es: Seq<&PermanentMemoryEntry>, c: PermanentContents) -> bool {
    &&& crate::text::strictly_sorted(ref_keys(es))
    &&& ref_keys(es).to_set() == c.dom()
    &&& forall|i: int| 0 <= i < es.len() ==> entry_view(*#[trigger] es[i]) == c[es[i].key@]
}

/// The contents of a list of entries whose keys are distinct.
pub open spec fn contents_of(es: Seq<PermanentMemoryEntry>) -> PermanentContents {
    Map::new(
        |k: Seq<char>| entry_keys(es).contains(k),
        |k: Seq<char>| entry_view(es[entry_keys(es).index_of(k)]),
    )
}

/// In-memory backend: entries kept in increasing key order.
#[derive(Debug)]
pub struct InMemoryPermanentBackend {
    records: Vec<PermanentMemoryEntry>,
}

proof fn lemma_sorted_distinct(ks: Seq<Seq<char>>, i: int, j: int)
    requires
        crate::text::strictly_sorted(ks),
        0 <= i < ks.len(),
        0 <= j < ks.len(),
        i != j,
    ensures
        ks[i] != ks[j],
{
    if i < j {
        assert(crate::text::lex_lt(ks[i], ks[j]));
        crate::text::lemma_lex_irreflexive(ks[i]);
    } else {
        assert(crate::text::lex_lt(ks[j], ks[i]));
        crate::text::lemma_lex_irreflexive(ks[j]);
    }
}

proof fn lemma_index_of_sorted(ks: Seq<Seq<char>>, i: int)
    requires
        crate::text::strictly_sorted(ks),
        0 <= i < ks.len(),
    ensures
        ks.contains(ks[i]),
        ks.index_of(ks[i]) == i,
{
    assert(ks.contains(ks[i]));
    let j = ks.index_of(ks[i]);
    ks.index_of_first_ensures(ks[i]);
    if j != i {
        lemma_sorted_distinct(ks, i, j);
    }
}

impl InMemoryPermanentBackend {
    pub fn new() -> (r: Self)
        ensures
            r.wf(),
            r.contents() == Map::<Seq<char>, PermanentEntryView>::empty(),
    {
        let r = InMemoryPermanentBackend { records: Vec::new() };
        assert(r.contents() =~= Map::<Seq<char>, PermanentEntryView>::empty());
        r
    }

    /// Position of `key`, if present.
    fn position(&self, key: &Vec<char>) -> (r: Option<usize>)
        requires
            self.wf(),
        ensures
            match r {
                Some(i) => i < self.records@.len() && self.records@[i as int].key@ == key@,
                None => !entry_keys(self.records@).contains(key@),
            },
    {
        let mut i: usize = 0;
        while i < self.records.len()
            invariant
                i <= self.records@.len(),
                forall|j: int| 0 <= j < i ==> self.records@[j].key@ != key@,
            decreases self.records.len() - i,
        {
            let kv = chars_of(self.records[i].key.as_str());
            if crate::text::chars_eq(&kv, key) {
                return Some(i);
            }
            i = i + 1;
        }
        proof {
            if entry_keys(self.records@).contains(key@) {
                let j = choose|j: int| 0 <= j < self.records@.len() && entry_keys(self.records@)[j] == key@;
                assert(self.records@[j].key@ == key@);
            }
        }
        None
    }
}

impl Default for InMemoryPermanentBackend {
    fn default() -> (r: Self)
        ensures
            r.wf(),
            r.contents() == Map::<Seq<char>, PermanentEntryView>::empty(),
    {
        InMemoryPermanentBackend::new()
    }
}

proof fn lemma_contents_insert(es: Seq<PermanentMemoryEntry>, k: int, e: PermanentMemoryEntry)
    requires
        crate::text::strictly_sorted(entry_keys(es)),
        crate::text::strictly_sorted(entry_keys(es.insert(k, e))),
        0 <= k <= es.len(),
    ensures
        contents_of(es.insert(k, e)) == contents_of(es).insert(e.key@, entry_view(e)),
{
    let ns = es.insert(k, e);
    let ok = entry_keys(es);
    let nk = entry_keys(ns);
    assert(nk =~= ok.insert(k, e.key@));
    assert forall|key: Seq<char>| #![auto] nk.contains(key) <==> (ok.contains(key) || key == e.key@) by {
        if nk.contains(key) {
            let i = choose|i: int| 0 <= i < nk.len() && nk[i] == key;
            if i < k {
                assert(ok[i] == key);
            } else if i > k {
                assert(ok[i - 1] == key);
            }
        }
        if ok.contains(key) {
            let i = choose|i: int| 0 <= i < ok.len() && ok[i] == key;
            if i < k {
                assert(nk[i] == key);
            } else {
                assert(nk[i + 1] == key);
            }
        }
        if key == e.key@ {
            assert(nk[k] == key);
        }
    }
    assert forall|key: Seq<char>| #![auto] nk.contains(key) implies contents_of(ns)[key]
        == contents_of(es).insert(e.key@, entry_view(e))[key] by {
        let i = choose|i: int| 0 <= i < nk.len() && nk[i] == key;
        lemma_index_of_sorted(nk, i);
        if i < k {
            assert(ok[i] == key);
            lemma_index_of_sorted(ok, i);
            if key == e.key@ {
                lemma_sorted_distinct(nk, i, k);
            }
        } else if i > k {
            assert(ok[i - 1] == key);
            lemma_index_of_sorted(ok, i - 1);
            if key == e.key@ {
                lemma_sorted_distinct(nk, i, k);
            }
        }
    }
    assert(contents_of(ns) =~= contents_of(es).insert(e.key@, entry_view(e)));
}

proof fn lemma_contents_update(es: Seq<PermanentMemoryEntry>, i: int, e: PermanentMemoryEntry)
    requires
        crate::text::strictly_sorted(entry_keys(es)),
        0 <= i < es.len(),
        e.key@ == es[i].key@,
    ensures
        crate::text::strictly_sorted(entry_keys(es.update(i, e))),
        contents_of(es.update(i, e)) == contents_of(es).insert(e.key@, entry_view(e)),
{
    let ns = es.update(i, e);
    assert(entry_keys(ns) =~= entry_keys(es));
    let ks = entry_keys(es);
    lemma_index_of_sorted(ks, i);
    assert forall|key: Seq<char>| #![auto] ks.contains(key) implies contents_of(ns)[key]
        == contents_of(es).insert(e.key@, entry_view(e))[key] by {
        let j = choose|j: int| 0 <= j < ks.len() && ks[j] == key;
        lemma_index_of_sorted(ks, j);
        if j != i {
            lemma_sorted_distinct(ks, i, j);
        }
    }
    assert(contents_of(ns) =~= contents_of(es).insert(e.key@, entry_view(e)));
}

impl PermanentMemoryBackend for InMemoryPermanentBackend {
    closed spec fn contents(&self) -> PermanentContents {
        contents_of(self.records@)
    }

    closed spec fn wf(&self) -> bool {
        crate::text::strictly_sorted(entry_keys(self.records@))
    }

    fn insert(&mut self, entry: PermanentMemoryEntry) -> (r: Result<(), MemoryError>) {
        let key = chars_of(entry.key.as_str());
        let ghost old_recs = self.records@;
        let ghost ok = entry_keys(old_recs);
        let mut k: usize = 0;
        while k < self.records.len() && crate::text::string_lt_chars(&self.records[k].key, &key)
            invariant
                k <= self.records@.len(),
                self.records@ == old_recs,
                ok == entry_keys(old_recs),
                key@ == entry.key@,
                forall|j: int| 0 <= j < k ==> crate::text::lex_lt(#[trigger] ok[j], entry.key@),
            decreases self.records.len() - k,
        {
            assert(ok[k as int] == self.records@[k as int].key@);
            k = k + 1;
        }
        if k < self.records.len() {
            let kv = chars_of(self.records[k].key.as_str());
            if crate::text::chars_eq(&kv, &key) {
                proof {
                    assert(ok[k as int] == entry.key@);
                    assert(ok.contains(entry.key@));
                }
                return Err(MemoryError::EntryAlreadyExists { key: copy_string(&entry.key) });
            }
            proof {
                assert(ok[k as int] == self.records@[k as int].key@);
                crate::text::lemma_lex_total(ok[k as int], entry.key@);
            }
        }
        proof {
            // the key is absent: smaller keys come before k, larger from k on
            if ok.contains(entry.key@) {
                let j = choose|j: int| 0 <= j < ok.len() && ok[j] == entry.key@;
                if j < k {
                    crate::text::lemma_lex_irreflexive(entry.key@);
                } else {
                    if j > k {
                        assert(crate::text::lex_lt(ok[k as int], ok[j]));
                        crate::text::lemma_lex_total(ok[k as int], entry.key@);
                    }
                }
            }
        }
        let mut e = entry;
        e.updated_at_unix = unix_now();
        let ghost ev = e;
        self.records.insert(k, e);
        proof {
            let nk = entry_keys(self.records@);
            assert(nk =~= ok.insert(k as int, ev.key@));
            assert forall|i: int, j: int| 0 <= i < j < nk.len() implies crate::text::lex_lt(
                #[trigger] nk[i],
                #[trigger] nk[j],
            ) by {
                if j < k {
                    assert(nk[i] == ok[i] && nk[j] == ok[j]);
                } else if j == k {
                    assert(nk[i] == ok[i]);
                } else if i == k {
                    assert(nk[j] == ok[j - 1]);
                    if j - 1 > k {
                        crate::text::lemma_lex_transitive(ev.key@, ok[k as int], ok[j - 1]);
                    }
                } else if i < k {
                    assert(nk[j] == ok[j - 1]);
                    assert(nk[i] == ok[i]);
                } else {
                    assert(nk[j] == ok[j - 1]);
                    assert(nk[i] == ok[i - 1]);
                }
            }
            lemma_contents_insert(old_recs, k as int, ev);
            assert(entry_view(ev) == entry_view(entry));
        }
        Ok(())
    }

    fn update(&mut self, update: PermanentMemoryUpdate, policy: OverwritePolicy) -> (r: Result<
        (),
        MemoryError,
    >) {
        let key = chars_of(update.key.as_str());
        let ghost old_recs = self.records@;
        let pos = self.position(&key);
        let i = match pos {
            None => {
                return Err(MemoryError::EntryNotFound { key: update.key });
            },
            Some(i) => i,
        };
        proof {
            lemma_index_of_sorted(entry_keys(old_recs), i as int);
        }
        if self.records[i].priority == MemoryPriority::Critical && policy != OverwritePolicy::Force {
            return Err(MemoryError::CriticalOverwriteBlocked { key: update.key });
        }
        match update.expected_revision {
            Some(expected) => {
                if self.records[i].revision != expected {
                    return Err(
                        MemoryError::RevisionConflict {
                            key: update.key,
                            expected,
                            actual: self.records[i].revision,
                        },
                    );
                }
            },
            None => {},
        }
        let ghost u = update;
        let old_entry = self.records.remove(i);
        let priority = match update.new_priority {
            Some(p) => p,
            None => old_entry.priority,
        };
        let e = PermanentMemoryEntry {
            key: old_entry.key,
            kind: old_entry.kind,
            value: update.new_value,
            priority,
            source: old_entry.source,
            revision: old_entry.revision + 1,
            updated_at_unix: unix_now(),
        };
        let ghost ev = e;
        self.records.insert(i, e);
        proof {
            assert(self.records@ =~= old_recs.update(i as int, ev));
            lemma_contents_update(old_recs, i as int, ev);
            assert(entry_view(ev) == updated_view(entry_view(old_recs[i as int]), u));
        }
        Ok(())
    }

    fn get(&self, key: &str) -> (r: Option<&PermanentMemoryEntry>) {
        let kv = chars_of(key);
        match self.position(&kv) {
            Some(i) => {
                proof {
                    lemma_index_of_sorted(entry_keys(self.records@), i as int);
                }
                Some(&self.records[i])
            },
            None => None,
        }
    }

    fn list(&self) -> (r: Vec<&PermanentMemoryEntry>) {
        let mut r: Vec<&PermanentMemoryEntry> = Vec::new();
        let mut i: usize = 0;
        while i < self.records.len()
            invariant
                i <= self.records@.len(),
                r@.len() == i,
                forall|j: int| 0 <= j < i ==> *#[trigger] r@[j] == self.records@[j],
            decreases self.records.len() - i,
        {
            r.push(&self.records[i]);
            i = i + 1;
        }
        proof {
            let ks = entry_keys(self.records@);
            assert(ref_keys(r@) =~= ks);
            assert(ks.to_set() =~= self.contents().dom());
            assert forall|j: int| 0 <= j < r@.len() implies entry_view(*#[trigger] r@[j])
                == self.contents()[r@[j].key@] by {
                lemma_index_of_sorted(ks, j);
            }
        }
        r
    }
}

/// Permanent memory over a storage backend.
#[derive(Debug)]
pub struct PermanentMemory<B: PermanentMemoryBackend> {
    backend: B,
}

impl<B: PermanentMemoryBackend> PermanentMemory<B> {
    /// What the memory holds.
    pub closed spec fn contents(&self) -> PermanentContents {
        self.backend.contents()
    }

    /// The backend is well formed.
    pub closed spec fn wf(&self) -> bool {
        self.backend.wf()
    }

    pub fn new(backend: B) -> (r: Self)
        ensures
            r.contents() == backend.contents(),
            r.wf() == backend.wf(),
    {
        PermanentMemory { backend }
    }

    pub fn insert(&mut self, entry: PermanentMemoryEntry) -> (r: Result<(), MemoryError>)
        requires
            old(self).wf(),
        ensures
            final(self).wf(),
            insert_outcome(old(self).contents(), final(self).contents(), entry, r),
    {
        self.backend.insert(entry)
    }

    pub fn update_safe(&mut self, update: PermanentMemoryUpdate) -> (r: Result<(), MemoryError>)
        requires
            old(self).wf(),
            old(self).contents().contains_key(update.key@) ==> old(self).contents()[update.key@].revision
                < u64::MAX,
        ensures
            final(self).wf(),
            update_outcome(
                old(self).contents(),
                final(self).contents(),
                update,
                OverwritePolicy::Safe,
                r,
            ),
    {
        self.backend.update(update, OverwritePolicy::Safe)
    }

    pub fn update_with_policy(&mut self, update: PermanentMemoryUpdate, policy: OverwritePolicy) -> (r:
        Result<(), MemoryError>)
        requires
            old(self).wf(),
            old(self).contents().contains_key(update.key@) ==> old(self).contents()[update.key@].revision
                < u64::MAX,
        ensures
            final(self).wf(),
            update_outcome(old(self).contents(), final(self).contents(), update, policy, r),
    {
        self.backend.update(update, policy)
    }

    pub fn get(&self, key: &str) -> (r: Option<&PermanentMemoryEntry>)
        requires
            self.wf(),
        ensures
            match r {
                Some(e) => self.contents().contains_key(key@) && e.key@ == key@ && entry_view(*e)
                    == self.contents()[key@],
                None => !self.contents().contains_key(key@),
            },
    {
        self.backend.get(key)
    }

    pub fn all(&self) -> (r: Vec<&PermanentMemoryEntry>)
        requires
            self.wf(),
        ensures
            lists_contents(r@, self.contents()),
    {
        self.backend.list()
    }
}

impl Default for PermanentMemory<InMemoryPermanentBackend> {
    fn default() -> (r: Self)
        ensures
            r.wf(),
            r.contents() == Map::<Seq<char>, PermanentEntryView>::empty(),
    {
        PermanentMemory { backend: InMemoryPermanentBackend::new() }
    }
}

/// One call on the permanent store and its answer.
pub enum StoreCall {
    Insert(PermanentMemoryEntry, Result<(), MemoryError>),
    Update(PermanentMemoryUpdate, OverwritePolicy, Result<(), MemoryError>),
}

/// What a call does to the contents and answers.
pub open spec fn call_outcome(before: PermanentContents, after: PermanentContents, c: StoreCall) -> bool {
    match c {
        StoreCall::Insert(e, r) => insert_outcome(before, after, e, r),
        StoreCall::Update(u, p, r) => update_outcome(before, after, u, p, r),
    }
}

/// How many of the calls are insertions that succeeded.
pub open spec fn successful_inserts(calls: Seq<StoreCall>) -> nat
    decreases calls.len(),
{
    if calls.len() == 0 {
        0
    } else {
        successful_inserts(calls.drop_last()) + match calls.last() {
            StoreCall::Insert(_, r) => if r is Ok {
                1nat
            } else {
                0nat
            },
            StoreCall::Update(_, _, _) => 0nat,
        }
    }
}

proof fn lemma_calls_count(states: Seq<PermanentContents>, calls: Seq<StoreCall>, n: int)
    requires
        states.len() == calls.len() + 1,
        states[0] == Map::<Seq<char>, PermanentEntryView>::empty(),
        forall|i: int| 0 <= i < calls.len() ==> call_outcome(#[trigger] states[i], states[i + 1], calls[i]),
        0 <= n <= calls.len(),
    ensures
        states[n].dom().finite(),
        states[n].dom().len() == successful_inserts(calls.take(n)),
    decreases n,
{
    if n == 0 {
        assert(calls.take(0) =~= Seq::<StoreCall>::empty());
        assert(states[0].dom() =~= Set::<Seq<char>>::empty());
    } else {
        lemma_calls_count(states, calls, n - 1);
        assert(calls.take(n).drop_last() =~= calls.take(n - 1));
        assert(calls.take(n).last() == calls[n - 1]);
        let b = states[n - 1];
        let a = states[n];
        assert(call_outcome(b, a, calls[n - 1]));
        match calls[n - 1] {
            StoreCall::Insert(e, r) => {
                if b.contains_key(e.key@) {
                    assert(a == b);
                } else {
                    assert(a.dom() =~= b.dom().insert(e.key@));
                }
            },
            StoreCall::Update(u, p, r) => {
                if r is Ok {
                    assert(a.dom() =~= b.dom());
                } else {
                    assert(a == b);
                }
            },
        }
    }
}

/// Over any run of insertions and updates on a store that starts empty, a
/// listing of the final contents gives each stored key once, in strictly
/// increasing order, and holds exactly as many entries as insertions
/// succeeded (an update never adds or removes a key).
pub proof fn law_listing_counts_inserts(
    states: Seq<PermanentContents>,
    calls: Seq<StoreCall>,
    listing: Seq<&PermanentMemoryEntry>,
)
    requires
        states.len() == calls.len() + 1,
        states[0] == Map::<Seq<char>, PermanentEntryView>::empty(),
        forall|i: int| 0 <= i < calls.len() ==> call_outcome(#[trigger] states[i], states[i + 1], calls[i]),
        lists_contents(listing, states[calls.len() as int]),
    ensures
        crate::text::strictly_sorted(ref_keys(listing)),
        ref_keys(listing).no_duplicates(),
        listing.len() == successful_inserts(calls),
{
    lemma_calls_count(states, calls, calls.len() as int);
    assert(calls.take(calls.len() as int) =~= calls);
    let ks = ref_keys(listing);
    assert forall|i: int, j: int| 0 <= i < ks.len() && 0 <= j < ks.len() && i != j implies ks[i] != ks[j] by {
        if i < j {
            assert(crate::text::lex_lt(ks[i], ks[j]));
        } else {
            assert(crate::text::lex_lt(ks[j], ks[i]));
        }
        crate::text::lemma_lex_irreflexive(ks[i]);
    }
    ks.unique_seq_to_set();
}

/// Reading a key back after a successful insertion gives the inserted entry.
pub proof fn law_read_after_insert(
    before: PermanentContents,
    after: PermanentContents,
    e: PermanentMemoryEntry,
    r: Result<(), MemoryError>,
)
    requires
        insert_outcome(before, after, e, r),
        r is Ok,
    ensures
        after.contains_key(e.key@),
        after[e.key@] == entry_view(e),
        forall|k: Seq<char>| k != e.key@ ==> (after.contains_key(k) == before.contains_key(k)),
{
}

/// Inserting an existing key is refused and changes nothing.
pub proof fn law_insert_never_overwrites(
    before: PermanentContents,
    after: PermanentContents,
    e: PermanentMemoryEntry,
    r: Result<(), MemoryError>,
)
    requires
        insert_outcome(before, after, e, r),
        before.contains_key(e.key@),
    ensures
        r is Err,
        after == before,
{
}

/// A safe update never changes a critical entry.
pub proof fn law_safe_update_protects_critical(
    before: PermanentContents,
    after: PermanentContents,
    u: PermanentMemoryUpdate,
    r: Result<(), MemoryError>,
)
    requires
        update_outcome(before, after, u, OverwritePolicy::Safe, r),
        before.contains_key(u.key@),
        before[u.key@].priority == MemoryPriority::Critical,
    ensures
        r matches Err(MemoryError::CriticalOverwriteBlocked { key }) && key@ == u.key@,
        after == before,
{
}

/// A successful update stores the new value, bumps the revision by one and
/// leaves every other key alone.
pub proof fn law_update_bumps_revision(
    before: PermanentContents,
    after: PermanentContents,
    u: PermanentMemoryUpdate,
    policy: OverwritePolicy,
    r: Result<(), MemoryError>,
)
    requires
        update_outcome(before, after, u, policy, r),
        r is Ok,
        before.contains_key(u.key@) ==> before[u.key@].revision < u64::MAX,
    ensures
        before.contains_key(u.key@),
        after[u.key@].value == u.new_value@,
        after[u.key@].revision == before[u.key@].revision + 1,
        after[u.key@].kind == before[u.key@].kind,
        forall|k: Seq<char>| k != u.key@ ==> after.contains_key(k) == before.contains_key(k) && (
        before.contains_key(k) ==> after[k] == before[k]),
{
}

/// An update that names a stale revision is refused and changes nothing.
pub proof fn law_stale_revision_refused(
    before: PermanentContents,
    after: PermanentContents,
    u: PermanentMemoryUpdate,
    policy: OverwritePolicy,
    r: Result<(), MemoryError>,
)
    requires
        update_outcome(before, after, u, policy, r),
        before.contains_key(u.key@),
        u.expected_revision matches Some(x) && x != before[u.key@].revision,
    ensures
        r is Err,
        after == before,
{
}

// ---------------------------------------------------------------------------
// Memory engine
// ---------------------------------------------------------------------------

/// Unified layered memory service.
#[derive(Debug)]
pub struct MemoryEngine<S: InteractionSummarizer> {
    /// Ephemeral conversation context.
    pub short_term: ShortTermMemory,
    /// Condensed interaction cards.
    pub summaries: Vec<InteractionSummaryCard>,
    /// Error/correction learnings.
    pub learning: LearningMemory,
    /// Durable source-of-truth memory.
    pub permanent: PermanentMemory<InMemoryPermanentBackend>,
    /// Buffered errors pending consolidation into learning memory.
    pub pending_errors: Vec<ErrorCorrection>,
    pub summarizer: S,
}

impl<S: InteractionSummarizer> MemoryEngine<S> {
    /// The layers are well formed.
    pub open spec fn wf(&self) -> bool {
        self.short_term.wf() && self.permanent.wf()
    }

    pub fn new(short_term_capacity: usize, summarizer: S) -> (r: Result<Self, MemoryError>)
        ensures
            match r {
                Ok(e) => short_term_capacity > 0 && e.wf() && e.short_term.cap()
                    == short_term_capacity && e.short_term.items().len() == 0
                    && e.summaries@.len() == 0 && e.learning.items().len() == 0
                    && e.permanent.contents() == Map::<Seq<char>, PermanentEntryView>::empty()
                    && e.pending_errors@.len() == 0 && e.summarizer == summarizer,
                Err(err) => short_term_capacity == 0 && err is InvalidCapacity,
            },
    {
        let short_term = match ShortTermMemory::with_capacity(short_term_capacity) {
            Ok(m) => m,
            Err(e) => {
                return Err(e);
            },
        };
        Ok(
            MemoryEngine {
                short_term,
                summaries: Vec::new(),
                learning: LearningMemory::new(),
                permanent: PermanentMemory::default(),
                pending_errors: Vec::new(),
                summarizer,
            },
        )
    }

    /// Ingest a full interaction in the short-term and summary layers.
    pub fn ingest_interaction(&mut self, interaction: InteractionRecord)
        requires
            old(self).wf(),
        ensures
            final(self).wf(),
            final(self).short_term.cap() == old(self).short_term.cap(),
            final(self).short_term.items() == (if old(self).short_term.items().len()
                == old(self).short_term.cap() {
                old(self).short_term.items().drop_first()
            } else {
                old(self).short_term.items()
            }).push(interaction),
            final(self).summaries@.len() == old(self).summaries@.len() + 1,
            final(self).summaries@.drop_last() == old(self).summaries@,
            old(self).summarizer.summarizes(interaction, final(self).summaries@.last()),
            final(self).learning == old(self).learning,
            final(self).permanent == old(self).permanent,
            final(self).pending_errors == old(self).pending_errors,
            final(self).summarizer == old(self).summarizer,
    {
        let card = self.summarizer.summarize(&interaction);
        self.short_term.push(interaction);
        self.summaries.push(card);
        assert(self.summaries@.drop_last() =~= old(self).summaries@);
    }

    /// Record short-term context only, without summarizing it.
    pub fn record_short_term_only(&mut self, interaction: InteractionRecord)
        requires
            old(self).wf(),
        ensures
            final(self).wf(),
            final(self).short_term.cap() == old(self).short_term.cap(),
            final(self).short_term.items() == (if old(self).short_term.items().len()
                == old(self).short_term.cap() {
                old(self).short_term.items().drop_first()
            } else {
                old(self).short_term.items()
            }).push(interaction),
            final(self).summaries == old(self).summaries,
            final(self).learning == old(self).learning,
            final(self).permanent == old(self).permanent,
            final(self).pending_errors == old(self).pending_errors,
            final(self).summarizer == old(self).summarizer,
    {
        self.short_term.push(interaction);
    }

    /// Enrich learning memory with an error/correction pattern.
    pub fn ingest_learning(
        &mut self,
        interaction_id: Option<u128>,
        correction: ErrorCorrection,
        confidence_gain_milli: u32,
    )
        ensures
            final(self).learning.items().len() == old(self).learning.items().len() + 1,
            final(self).learning.items().drop_last() == old(self).learning.items(),
            final(self).learning.items().last().interaction_id == interaction_id,
            final(self).learning.items().last().correction == correction,
            final(self).learning.items().last().confidence_gain_milli == confidence_gain_milli,
            final(self).short_term == old(self).short_term,
            final(self).summaries == old(self).summaries,
            final(self).permanent == old(self).permanent,
            final(self).pending_errors == old(self).pending_errors,
            final(self).summarizer == old(self).summarizer,
    {
        self.learning.add(
            LearningEntry { id: fresh_id(), interaction_id, correction, confidence_gain_milli },
        );
        assert(self.learning.items().drop_last() =~= old(self).learning.items());
    }

    /// Buffer an error/correction for later consolidation.
    pub fn buffer_error_for_learning(&mut self, correction: ErrorCorrection)
        ensures
            final(self).pending_errors@ == old(self).pending_errors@.push(correction),
            final(self).short_term == old(self).short_term,
            final(self).summaries == old(self).summaries,
            final(self).learning == old(self).learning,
            final(self).permanent == old(self).permanent,
            final(self).summarizer == old(self).summarizer,
    {
        self.pending_errors.push(correction);
    }
}

// ---------------------------------------------------------------------------
// Retrieval
// ---------------------------------------------------------------------------

/// Retrieval intent selects which layers are queried.
#[derive(Clone, Copy, Debug, PartialEq, Eq, Structural)]
pub enum RetrievalIntent {
    ImmediateContext,
    SessionRecall,
    ErrorAvoidance,
    DurableRules,
    Balanced,
}

/// Memory retrieval request.
#[derive(Debug)]
pub struct RetrievalQuery {
    pub intent: RetrievalIntent,
    pub text: String,
    pub max_results: usize,
}

impl RetrievalQuery {
    pub fn new(intent: RetrievalIntent, text: &str, max_results: usize) -> (r: Self)
        ensures
            r.intent == intent,
            r.text@ == text@,
            r.max_results == if max_results >= 1 {
                max_results
            } else {
                1
            },
    {
        RetrievalQuery {
            intent,
            text: owned(text),
            max_results: if max_results >= 1 {
                max_results
            } else {
                1
            },
        }
    }
}

/// Layer that produced a retrieval hit.
#[derive(Clone, Copy, Debug, PartialEq, Eq, Structural)]
pub enum RetrievalLayer {
    ShortTerm,
    Summary,
    Learning,
    Permanent,
}

/// Retrieval result.  The score is the fraction `score / scale`: the share of
/// query words found in the item plus a boost that depends on its layer.
#[derive(Debug)]
pub struct RetrievedMemory {
    pub layer: RetrievalLayer,
    pub score: u128,
    pub scale: u128,
    pub value: String,
}

/// A retrieval hit as a mathematical value.
pub struct HitView {
    pub layer: RetrievalLayer,
    pub score: nat,
    pub value: Seq<char>,
}

pub open spec fn hit_view(h: RetrievedMemory) -> HitView {
    HitView { layer: h.layer, score: h.score as nat, value: h.value@ }
}

pub open spec fn hit_views(hs: Seq<RetrievedMemory>) -> Seq<HitView> {
    Seq::new(hs.len(), |i: int| hit_view(hs[i]))
}

/// Layers queried for an intent: (short-term, summary, learning, permanent).
pub open spec fn layers_for(intent: RetrievalIntent) -> (bool, bool, bool, bool) {
    match intent {
        RetrievalIntent::ImmediateContext => (true, false, false, true),
        RetrievalIntent::SessionRecall => (true, true, false, false),
        RetrievalIntent::ErrorAvoidance => (false, false, true, true),
        RetrievalIntent::DurableRules => (false, true, false, true),
        RetrievalIntent::Balanced => (true, true, true, true),
    }
}

/// Number of query tokens (with repetition) that occur among `ht`.
pub open spec fn overlap_count(qt: Seq<Seq<char>>, ht: Seq<Seq<char>>) -> nat
    decreases qt.len(),
{
    if qt.len() == 0 {
        0
    } else {
        overlap_count(qt.drop_last(), ht) + if ht.contains(qt.last()) {
            1nat
        } else {
            0nat
        }
    }
}

/// The common denominator of the scores of a query with `n` tokens.
pub open spec fn score_scale(n: nat) -> nat {
    if n == 0 {
        100
    } else {
        100 * n
    }
}

/// Numerator of the score of `haystack` for query tokens `qt` with a layer
/// boost of `boost` hundredths.
pub open spec fn score_of(qt: Seq<Seq<char>>, haystack: Seq<char>, boost: nat) -> nat {
    if qt.len() == 0 {
        boost
    } else {
        100 * overlap_count(qt, crate::text::tokens(haystack)) + boost * qt.len()
    }
}

/// Boost, in hundredths, of a permanent entry of a given priority.
pub open spec fn priority_boost(p: MemoryPriority) -> nat {
    match p {
        MemoryPriority::Critical => 35,
        MemoryPriority::High => 20,
        MemoryPriority::Normal => 5,
    }
}

pub open spec fn two(a: Seq<char>, b: Seq<char>) -> Seq<char> {
    a + " "@ + b
}

pub open spec fn three(a: Seq<char>, b: Seq<char>, c: Seq<char>) -> Seq<char> {
    a + " "@ + b + " "@ + c
}

pub open spec fn short_term_hits(qt: Seq<Seq<char>>, xs: Seq<InteractionRecord>) -> Seq<HitView> {
    Seq::new(
        xs.len(),
        |i: int|
            {
                let h = two(xs[i].objective@, xs[i].final_answer@);
                HitView { layer: RetrievalLayer::ShortTerm, score: score_of(qt, h, 15), value: h }
            },
    )
}

pub open spec fn summary_hits(qt: Seq<Seq<char>>, cs: Seq<InteractionSummaryCard>) -> Seq<HitView> {
    Seq::new(
        cs.len(),
        |i: int|
            {
                let h = three(cs[i].objective@, cs[i].user_intent@, cs[i].answer_summary@);
                HitView { layer: RetrievalLayer::Summary, score: score_of(qt, h, 10), value: h }
            },
    )
}

pub open spec fn learning_hits(qt: Seq<Seq<char>>, es: Seq<LearningEntry>) -> Seq<HitView> {
    Seq::new(
        es.len(),
        |i: int|
            {
                let c = es[i].correction;
                let h = three(c.error_signature@, c.root_cause@, c.correction@);
                HitView { layer: RetrievalLayer::Learning, score: score_of(qt, h, 20), value: h }
            },
    )
}

pub open spec fn permanent_hits(qt: Seq<Seq<char>>, es: Seq<&PermanentMemoryEntry>) -> Seq<HitView> {
    Seq::new(
        es.len(),
        |i: int|
            {
                let h = two(es[i].key@, es[i].value@);
                HitView {
                    layer: RetrievalLayer::Permanent,
                    score: score_of(qt, h, priority_boost(es[i].priority)),
                    value: h,
                }
            },
    )
}

/// Stable insertion of `h` into a list ordered by non-increasing score:
/// `h` goes after every item whose score is at least its own.
pub open spec fn insert_desc(s: Seq<HitView>, h: HitView) -> Seq<HitView>
    decreases s.len(),
{
    if s.len() == 0 || s.last().score >= h.score {
        s.push(h)
    } else {
        insert_desc(s.drop_last(), h).push(s.last())
    }
}

/// Stable sort by non-increasing score.
pub open spec fn sort_desc(s: Seq<HitView>) -> Seq<HitView>
    decreases s.len(),
{
    if s.len() == 0 {
        s
    } else {
        insert_desc(sort_desc(s.drop_last()), s.last())
    }
}

/// Scores do not increase along the sequence.
pub open spec fn non_increasing(s: Seq<HitView>) -> bool {
    forall|i: int, j: int| 0 <= i < j < s.len() ==> #[trigger] s[i].score >= #[trigger] s[j].score
}

/// The best `max` candidates in order of non-increasing score, ties kept in
/// candidate order.
pub open spec fn ranked(candidates: Seq<HitView>, max: nat) -> Seq<HitView> {
    let sorted = sort_desc(candidates);
    if sorted.len() <= max {
        sorted
    } else {
        sorted.take(max as int)
    }
}

proof fn lemma_insert_desc_at(s: Seq<HitView>, h: HitView, j: int)
    requires
        0 <= j <= s.len(),
        forall|k: int| j <= k < s.len() ==> (#[trigger] s[k]).score < h.score,
        j > 0 ==> s[j - 1].score >= h.score,
    ensures
        insert_desc(s, h) == s.insert(j, h),
    decreases s.len(),
{
    if s.len() == 0 || s.last().score >= h.score {
        assert(s.push(h) =~= s.insert(j, h));
    } else {
        let d = s.drop_last();
        lemma_insert_desc_at(d, h, j);
        assert(d.insert(j, h).push(s.last()) =~= s.insert(j, h));
    }
}

proof fn lemma_insert_desc_sorted(s: Seq<HitView>, h: HitView)
    requires
        non_increasing(s),
    ensures
        non_increasing(insert_desc(s, h)),
        insert_desc(s, h).to_multiset() == s.to_multiset().insert(h),
    decreases s.len(),
{
    broadcast use vstd::seq_lib::group_to_multiset_ensures;
    if s.len() == 0 || s.last().score >= h.score {
        assert(non_increasing(s.push(h))) by {
            assert forall|i: int, j: int| 0 <= i < j < s.push(h).len() implies #[trigger] s.push(
                h,
            )[i].score >= #[trigger] s.push(h)[j].score by {
                if j == s.len() {
                    assert(s[i].score >= s.last().score);
                }
            }
        }
    } else {
        let d = s.drop_last();
        assert(non_increasing(d));
        lemma_insert_desc_sorted(d, h);
        let t = insert_desc(d, h);
        assert forall|i: int, j: int| 0 <= i < j < t.push(s.last()).len() implies #[trigger] t.push(
            s.last(),
        )[i].score >= #[trigger] t.push(s.last())[j].score by {
            if j == t.len() {
                // every element of t is either from d (>= last of s) or h (> last of s)
                assert(t.to_multiset().count(t[i]) > 0);
                assert(t.to_multiset() == d.to_multiset().insert(h));
                if t[i] != h {
                    assert(d.to_multiset().count(t[i]) > 0);
                    assert(d.contains(t[i]));
                    let k = choose|k: int| 0 <= k < d.len() && d[k] == t[i];
                    assert(s[k].score >= s[s.len() - 1].score);
                }
            }
        }
        assert(s =~= d.push(s.last()));
    }
}

proof fn lemma_sort_desc(s: Seq<HitView>)
    ensures
        non_increasing(sort_desc(s)),
        sort_desc(s).to_multiset() == s.to_multiset(),
        sort_desc(s).len() == s.len(),
    decreases s.len(),
{
    broadcast use vstd::seq_lib::group_to_multiset_ensures;
    if s.len() > 0 {
        lemma_sort_desc(s.drop_last());
        lemma_insert_desc_sorted(sort_desc(s.drop_last()), s.last());
        assert(s =~= s.drop_last().push(s.last()));
        assert(sort_desc(s).len() == sort_desc(s).to_multiset().len());
    }
}

/// Retrieval answers at most `max` hits, in non-increasing score, each of
/// them one of the candidates.
pub proof fn law_retrieval_ranked(candidates: Seq<HitView>, max: nat)
    ensures
        ranked(candidates, max).len() == if candidates.len() <= max {
            candidates.len()
        } else {
            max
        },
        non_increasing(ranked(candidates, max)),
        forall|i: int|
            0 <= i < ranked(candidates, max).len() ==> candidates.contains(
                #[trigger] ranked(candidates, max)[i],
            ),
{
    broadcast use vstd::seq_lib::group_to_multiset_ensures;
    lemma_sort_desc(candidates);
    let s = sort_desc(candidates);
    assert forall|i: int| 0 <= i < ranked(candidates, max).len() implies candidates.contains(
        #[trigger] ranked(candidates, max)[i],
    ) by {
        assert(s.to_multiset().count(s[i]) > 0);
    }
}

/// Candidate hits of a query, in layer order, as `retrieve` scores them.
pub open spec fn candidates_of<S: InteractionSummarizer>(e: MemoryEngine<S>, q: RetrievalQuery) -> Seq<HitView> {
    candidates_for(e, q.intent, q.text@)
}

/// Candidate hits for an intent and a query text, in layer order.
pub open spec fn candidates_for<S: InteractionSummarizer>(
    e: MemoryEngine<S>,
    intent: RetrievalIntent,
    text: Seq<char>,
) -> Seq<HitView> {
    let qt = crate::text::tokens(text);
    let (s, m, l, p) = layers_for(intent);
    let perm = choose|es: Seq<&PermanentMemoryEntry>| lists_contents(es, e.permanent.contents());
    (if s {
        short_term_hits(qt, e.short_term.items())
    } else {
        Seq::empty()
    }) + (if m {
        summary_hits(qt, e.summaries@)
    } else {
        Seq::empty()
    }) + (if l {
        learning_hits(qt, e.learning.items())
    } else {
        Seq::empty()
    }) + (if p {
        permanent_hits(qt, perm)
    } else {
        Seq::empty()
    })
}

/// Two listings of the same contents hold the same keys in the same order.
proof fn lemma_listing_unique(a: Seq<&PermanentMemoryEntry>, b: Seq<&PermanentMemoryEntry>, c: PermanentContents)
    requires
        lists_contents(a, c),
        lists_contents(b, c),
    ensures
        permanent_hits_agree(a, b),
{
    crate::text::lemma_sorted_unique(ref_keys(a), ref_keys(b));
    assert forall|i: int| 0 <= i < a.len() implies #[trigger] a[i].key@ == b[i].key@ && a[i].value@
        == b[i].value@ && a[i].priority == b[i].priority by {
        assert(ref_keys(a)[i] == ref_keys(b)[i]);
        assert(entry_view(*a[i]) == c[a[i].key@]);
        assert(entry_view(*b[i]) == c[b[i].key@]);
    }
}

/// Listings agree on key, value and priority position by position.
pub open spec fn permanent_hits_agree(a: Seq<&PermanentMemoryEntry>, b: Seq<&PermanentMemoryEntry>) -> bool {
    a.len() == b.len() && forall|i: int|
        0 <= i < a.len() ==> #[trigger] a[i].key@ == b[i].key@ && a[i].value@ == b[i].value@
            && a[i].priority == b[i].priority
}

/// Appends `a + " " + b`.
fn join_two(a: &str, b: &str) -> (r: String)
    ensures
        r@ == two(a@, b@),
{
    let mut r = owned(a);
    push_str(&mut r, " ");
    push_str(&mut r, b);
    r
}

/// `a + " " + b + " " + c`.
fn join_three(a: &str, b: &str, c: &str) -> (r: String)
    ensures
        r@ == three(a@, b@, c@),
{
    let mut r = join_two(a, b);
    push_str(&mut r, " ");
    push_str(&mut r, c);
    r
}

/// Number of query tokens found among the tokens of `haystack`.
fn overlap_of(qt: &Vec<Vec<char>>, haystack: &str) -> (n: u64)
    ensures
        n == overlap_count(vviews(qt@), crate::text::tokens(haystack@)),
        n <= qt@.len(),
{
    let ht = crate::text::tokenize(haystack);
    let mut n: u64 = 0;
    let mut i: usize = 0;
    while i < qt.len()
        invariant
            i <= qt@.len(),
            vviews(ht@) == crate::text::tokens(haystack@),
            n == overlap_count(vviews(qt@).take(i as int), crate::text::tokens(haystack@)),
            n <= i,
        decreases qt.len() - i,
    {
        assert(vviews(qt@).take(i + 1).drop_last() =~= vviews(qt@).take(i as int));
        if crate::text::contains_chars(&ht, &qt[i]) {
            n = n + 1;
        }
        i = i + 1;
    }
    assert(vviews(qt@).take(qt@.len() as int) =~= vviews(qt@));
    n
}

/// Score numerator of `haystack` for the query tokens `qt`.
fn score_hay(qt: &Vec<Vec<char>>, haystack: &str, boost: u128) -> (s: u128)
    requires
        boost <= 35,
    ensures
        s == score_of(vviews(qt@), haystack@, boost as nat),
{
    if qt.len() == 0 {
        return boost;
    }
    let ov = overlap_of(qt, haystack);
    let n = qt.len() as u128;
    assert(n <= 0xffff_ffff_ffff_ffff);
    assert(100 * (ov as u128) + boost * n <= 135 * 0xffff_ffff_ffff_ffffu128) by (nonlinear_arith)
        requires
            ov <= n,
            n <= 0xffff_ffff_ffff_ffff,
            boost <= 35,
    ;
    100 * (ov as u128) + boost * n
}

/// Inserts a hit into a list sorted by non-increasing score, after the hits
/// of equal or higher score.
fn insert_ranked(out: &mut Vec<RetrievedMemory>, h: RetrievedMemory)
    ensures
        hit_views(final(out)@) == insert_desc(hit_views(old(out)@), hit_view(h)),
        (forall|k: int| 0 <= k < old(out)@.len() ==> (#[trigger] old(out)@[k]).scale == h.scale)
            ==> (forall|k: int| 0 <= k < final(out)@.len() ==> (#[trigger] final(out)@[k]).scale == h.scale),
{
    let mut j = out.len();
    while j > 0 && out[j - 1].score < h.score
        invariant
            j <= out@.len(),
            forall|k: int| j <= k < out@.len() ==> (#[trigger] out@[k]).score < h.score,
        decreases j,
    {
        j = j - 1;
    }
    let ghost before = hit_views(out@);
    proof {
        lemma_insert_desc_at(before, hit_view(h), j as int);
    }
    let ghost hv = hit_view(h);
    let ghost old_out = out@;
    out.insert(j, h);
    assert(hit_views(out@) =~= before.insert(j as int, hv));
    assert(out@ == old_out.insert(j as int, h));
    assert forall|k: int| 0 <= k < out@.len() && k != j implies #[trigger] out@[k] == (if k < j { old_out[k] } else { old_out[k - 1] }) by {}
}

/// Ranks the short-term hits into `out`.
fn rank_short_term(
    out: &mut Vec<RetrievedMemory>,
    qt: &Vec<Vec<char>>,
    items: &Vec<InteractionRecord>,
    scale: u128,
    Ghost(cand): Ghost<Seq<HitView>>,
)
    requires
        hit_views(old(out)@) == sort_desc(cand),
        forall|k: int| 0 <= k < old(out)@.len() ==> (#[trigger] old(out)@[k]).scale == scale,
    ensures
        hit_views(final(out)@) == sort_desc(cand + short_term_hits(vviews(qt@), items@)),
        forall|k: int| 0 <= k < final(out)@.len() ==> (#[trigger] final(out)@[k]).scale == scale,
{
    let ghost qtv = vviews(qt@);
    let mut i: usize = 0;
    assert(cand + short_term_hits(qtv, items@).take(0) =~= cand);
    while i < items.len()
        invariant
            i <= items@.len(),
            qtv == vviews(qt@),
            hit_views(out@) == sort_desc(cand + short_term_hits(qtv, items@).take(i as int)),
            forall|k: int| 0 <= k < out@.len() ==> (#[trigger] out@[k]).scale == scale,
        decreases items.len() - i,
    {
        let x = &items[i];
        let hay = join_two(x.objective.as_str(), x.final_answer.as_str());
        let score = score_hay(qt, hay.as_str(), 15);
        let ghost pre = cand + short_term_hits(qtv, items@).take(i as int);
        let ghost nxt = short_term_hits(qtv, items@)[i as int];
        insert_ranked(out, RetrievedMemory { layer: RetrievalLayer::ShortTerm, score, scale, value: hay });
        i = i + 1;
        assert(cand + short_term_hits(qtv, items@).take(i as int) =~= pre.push(nxt));
        assert(pre.push(nxt).drop_last() =~= pre);
    }
    assert(short_term_hits(qtv, items@).take(items@.len() as int) =~= short_term_hits(qtv, items@));
}

/// Ranks the summary hits into `out`.
fn rank_summaries(
    out: &mut Vec<RetrievedMemory>,
    qt: &Vec<Vec<char>>,
    cards: &Vec<InteractionSummaryCard>,
    scale: u128,
    Ghost(cand): Ghost<Seq<HitView>>,
)
    requires
        hit_views(old(out)@) == sort_desc(cand),
        forall|k: int| 0 <= k < old(out)@.len() ==> (#[trigger] old(out)@[k]).scale == scale,
    ensures
        hit_views(final(out)@) == sort_desc(cand + summary_hits(vviews(qt@), cards@)),
        forall|k: int| 0 <= k < final(out)@.len() ==> (#[trigger] final(out)@[k]).scale == scale,
{
    let ghost qtv = vviews(qt@);
    let mut i: usize = 0;
    assert(cand + summary_hits(qtv, cards@).take(0) =~= cand);
    while i < cards.len()
        invariant
            i <= cards@.len(),
            qtv == vviews(qt@),
            hit_views(out@) == sort_desc(cand + summary_hits(qtv, cards@).take(i as int)),
            forall|k: int| 0 <= k < out@.len() ==> (#[trigger] out@[k]).scale == scale,
        decreases cards.len() - i,
    {
        let c = &cards[i];
        let hay = join_three(c.objective.as_str(), c.user_intent.as_str(), c.answer_summary.as_str());
        let score = score_hay(qt, hay.as_str(), 10);
        let ghost pre = cand + summary_hits(qtv, cards@).take(i as int);
        let ghost nxt = summary_hits(qtv, cards@)[i as int];
        insert_ranked(out, RetrievedMemory { layer: RetrievalLayer::Summary, score, scale, value: hay });
        i = i + 1;
        assert(cand + summary_hits(qtv, cards@).take(i as int) =~= pre.push(nxt));
        assert(pre.push(nxt).drop_last() =~= pre);
    }
    assert(summary_hits(qtv, cards@).take(cards@.len() as int) =~= summary_hits(qtv, cards@));
}

/// Ranks the learning hits into `out`.
fn rank_learning(
    out: &mut Vec<RetrievedMemory>,
    qt: &Vec<Vec<char>>,
    es: &Vec<LearningEntry>,
    scale: u128,
    Ghost(cand): Ghost<Seq<HitView>>,
)
    requires
        hit_views(old(out)@) == sort_desc(cand),
        forall|k: int| 0 <= k < old(out)@.len() ==> (#[trigger] old(out)@[k]).scale == scale,
    ensures
        hit_views(final(out)@) == sort_desc(cand + learning_hits(vviews(qt@), es@)),
        forall|k: int| 0 <= k < final(out)@.len() ==> (#[trigger] final(out)@[k]).scale == scale,
{
    let ghost qtv = vviews(qt@);
    let mut i: usize = 0;
    assert(cand + learning_hits(qtv, es@).take(0) =~= cand);
    while i < es.len()
        invariant
            i <= es@.len(),
            qtv == vviews(qt@),
            hit_views(out@) == sort_desc(cand + learning_hits(qtv, es@).take(i as int)),
            forall|k: int| 0 <= k < out@.len() ==> (#[trigger] out@[k]).scale == scale,
        decreases es.len() - i,
    {
        let c = &es[i].correction;
        let hay = join_three(c.error_signature.as_str(), c.root_cause.as_str(), c.correction.as_str());
        let score = score_hay(qt, hay.as_str(), 20);
        let ghost pre = cand + learning_hits(qtv, es@).take(i as int);
        let ghost nxt = learning_hits(qtv, es@)[i as int];
        insert_ranked(out, RetrievedMemory { layer: RetrievalLayer::Learning, score, scale, value: hay });
        i = i + 1;
        assert(cand + learning_hits(qtv, es@).take(i as int) =~= pre.push(nxt));
        assert(pre.push(nxt).drop_last() =~= pre);
    }
    assert(learning_hits(qtv, es@).take(es@.len() as int) =~= learning_hits(qtv, es@));
}

/// Ranks the permanent hits into `out`.
fn rank_permanent(
    out: &mut Vec<RetrievedMemory>,
    qt: &Vec<Vec<char>>,
    es: &Vec<&PermanentMemoryEntry>,
    scale: u128,
    Ghost(cand): Ghost<Seq<HitView>>,
)
    requires
        hit_views(old(out)@) == sort_desc(cand),
        forall|k: int| 0 <= k < old(out)@.len() ==> (#[trigger] old(out)@[k]).scale == scale,
    ensures
        hit_views(final(out)@) == sort_desc(cand + permanent_hits(vviews(qt@), es@)),
        forall|k: int| 0 <= k < final(out)@.len() ==> (#[trigger] final(out)@[k]).scale == scale,
{
    let ghost qtv = vviews(qt@);
    let mut i: usize = 0;
    assert(cand + permanent_hits(qtv, es@).take(0) =~= cand);
    while i < es.len()
        invariant
            i <= es@.len(),
            qtv == vviews(qt@),
            hit_views(out@) == sort_desc(cand + permanent_hits(qtv, es@).take(i as int)),
            forall|k: int| 0 <= k < out@.len() ==> (#[trigger] out@[k]).scale == scale,
        decreases es.len() - i,
    {
        let e = es[i];
        let hay = join_two(e.key.as_str(), e.value.as_str());
        let boost: u128 = match e.priority {
            MemoryPriority::Critical => 35,
            MemoryPriority::High => 20,
            MemoryPriority::Normal => 5,
        };
        let score = score_hay(qt, hay.as_str(), boost);
        let ghost pre = cand + permanent_hits(qtv, es@).take(i as int);
        let ghost nxt = permanent_hits(qtv, es@)[i as int];
        insert_ranked(out, RetrievedMemory { layer: RetrievalLayer::Permanent, score, scale, value: hay });
        i = i + 1;
        assert(cand + permanent_hits(qtv, es@).take(i as int) =~= pre.push(nxt));
        assert(pre.push(nxt).drop_last() =~= pre);
    }
    assert(permanent_hits(qtv, es@).take(es@.len() as int) =~= permanent_hits(qtv, es@));
}

/// Retrieval of memories for a query.
pub trait MemoryRetriever {
    /// The memory is in a state retrieval can work on.
    spec fn retrieval_ready(&self) -> bool;

    fn retrieve(&self, query: &RetrievalQuery) -> (r: Vec<RetrievedMemory>)
        requires
            self.retrieval_ready(),
    ;
}

impl<S: InteractionSummarizer> MemoryRetriever for MemoryEngine<S> {
    open spec fn retrieval_ready(&self) -> bool {
        self.wf()
    }

    /// Retrieve the best memories for a query across the layers its intent selects.
    fn retrieve(&self, query: &RetrievalQuery) -> (r: Vec<RetrievedMemory>)
        ensures
            hit_views(r@) == ranked(candidates_of(*self, *query), query.max_results as nat),
            forall|i: int|
                0 <= i < r@.len() ==> (#[trigger] r@[i]).scale == score_scale(
                    crate::text::tokens(query.text@).len(),
                ),
    {
        let qt = crate::text::tokenize(query.text.as_str());
        let ghost qtv = crate::text::tokens(query.text@);
        let scale: u128 = if qt.len() == 0 {
            100
        } else {
            100 * (qt.len() as u128)
        };
        let (inc_s, inc_m, inc_l, inc_p) = match query.intent {
            RetrievalIntent::ImmediateContext => (true, false, false, true),
            RetrievalIntent::SessionRecall => (true, true, false, false),
            RetrievalIntent::ErrorAvoidance => (false, false, true, true),
            RetrievalIntent::DurableRules => (false, true, false, true),
            RetrievalIntent::Balanced => (true, true, true, true),
        };
        let ghost perm = choose|ps: Seq<&PermanentMemoryEntry>| lists_contents(ps, self.permanent.contents());
        let ghost e: Seq<HitView> = Seq::empty();
        let ghost s1 = if inc_s { short_term_hits(qtv, self.short_term.items()) } else { e };
        let ghost s2 = if inc_m { summary_hits(qtv, self.summaries@) } else { e };
        let ghost s3 = if inc_l { learning_hits(qtv, self.learning.items()) } else { e };
        let ghost s4 = if inc_p { permanent_hits(qtv, perm) } else { e };
        let mut out: Vec<RetrievedMemory> = Vec::new();
        assert(hit_views(out@) =~= sort_desc(e));
        if inc_s {
            rank_short_term(&mut out, &qt, self.short_term.recent(), scale, Ghost(e));
        }
        assert(e + s1 =~= s1);
        if inc_m {
            rank_summaries(&mut out, &qt, &self.summaries, scale, Ghost(s1));
        }
        if inc_l {
            rank_learning(&mut out, &qt, self.learning.entries(), scale, Ghost(s1 + s2));
        }
        if inc_p {
            let es = self.permanent.all();
            proof {
                assert(lists_contents(perm, self.permanent.contents()));
                lemma_listing_unique(es@, perm, self.permanent.contents());
                assert(permanent_hits(qtv, es@) =~= permanent_hits(qtv, perm));
            }
            rank_permanent(&mut out, &qt, &es, scale, Ghost(s1 + s2 + s3));
        }
        proof {
            assert(s1 + s2 =~= s1 + s2 + e);
            assert(s1 + s2 + s3 =~= s1 + s2 + s3 + e);
            assert(candidates_of(*self, *query) == s1 + s2 + s3 + s4);
        }
        let max = query.max_results;
        if out.len() > max {
            let ghost full = hit_views(out@);
            out.truncate(max);
            assert(hit_views(out@) =~= full.take(max as int));
        }
        out
    }
}

/// Every short-term record is offered among `cand`, as its objective and final
/// answer joined by a space.
pub open spec fn offers_records(cand: Seq<HitView>, items: Seq<InteractionRecord>) -> bool {
    forall|r: InteractionRecord|
        #[trigger] items.contains(r) ==> exists|j: int|
            #![trigger cand[j]]
            0 <= j < cand.len() && cand[j].layer == RetrievalLayer::ShortTerm && cand[j].value == record_text(r)
}

/// A record as a retrieval text: its objective and final answer joined by a
/// space.
pub open spec fn record_text(r: InteractionRecord) -> Seq<char> {
    r.objective@ + " "@ + r.final_answer@
}

/// Every card is offered among `cand`, as its objective, user intent and
/// answer summary joined by spaces.
pub open spec fn offers_cards(cand: Seq<HitView>, cards: Seq<InteractionSummaryCard>) -> bool {
    forall|c: InteractionSummaryCard|
        #[trigger] cards.contains(c) ==> exists|j: int|
            #![trigger cand[j]]
            0 <= j < cand.len() && cand[j].layer == RetrievalLayer::Summary && cand[j].value == card_text(c)
}

/// A card as a retrieval text: its objective, user intent and answer
/// summary joined by spaces.
pub open spec fn card_text(c: InteractionSummaryCard) -> Seq<char> {
    c.objective@ + " "@ + c.user_intent@ + " "@ + c.answer_summary@
}

/// Every learning entry is offered among `cand`, as its error signature, root
/// cause and correction joined by spaces.
pub open spec fn offers_learnings(cand: Seq<HitView>, ls: Seq<LearningEntry>) -> bool {
    forall|i: int|
        #![trigger ls[i]]
        0 <= i < ls.len() ==> exists|j: int|
            #![trigger cand[j]]
            0 <= j < cand.len() && cand[j].layer == RetrievalLayer::Learning && cand[j].value
                =~= ls[i].correction.error_signature@ + " "@ + ls[i].correction.root_cause@ + " "@
                + ls[i].correction.correction@
}

/// Every durable entry is offered among `cand`, as its key and value joined
/// by a space.
pub open spec fn offers_durable(cand: Seq<HitView>, c: PermanentContents) -> bool {
    forall|k: Seq<char>|
        #[trigger] c.contains_key(k) ==> exists|j: int|
            #![trigger cand[j]]
            0 <= j < cand.len() && cand[j].layer == RetrievalLayer::Permanent && cand[j].value =~= k
                + " "@ + c[k].value
}

proof fn lemma_records_offered(qt: Seq<Seq<char>>, items: Seq<InteractionRecord>, pre: Seq<HitView>, post: Seq<HitView>)
    ensures
        offers_records(pre + short_term_hits(qt, items) + post, items),
{
    let cand = pre + short_term_hits(qt, items) + post;
    assert forall|r: InteractionRecord| #[trigger] items.contains(r) implies exists|j: int|
        #![trigger cand[j]]
        0 <= j < cand.len() && cand[j].layer == RetrievalLayer::ShortTerm && cand[j].value == record_text(r) by {
        let i = choose|i: int| 0 <= i < items.len() && items[i] == r;
        assert(cand[pre.len() + i] == short_term_hits(qt, items)[i]);
    }
}

proof fn lemma_cards_offered(qt: Seq<Seq<char>>, cards: Seq<InteractionSummaryCard>, pre: Seq<HitView>, post: Seq<HitView>)
    ensures
        offers_cards(pre + summary_hits(qt, cards) + post, cards),
{
    let cand = pre + summary_hits(qt, cards) + post;
    assert forall|c: InteractionSummaryCard| #[trigger] cards.contains(c) implies exists|j: int|
        #![trigger cand[j]]
        0 <= j < cand.len() && cand[j].layer == RetrievalLayer::Summary && cand[j].value == card_text(c) by {
        let i = choose|i: int| 0 <= i < cards.len() && cards[i] == c;
        assert(cand[pre.len() + i] == summary_hits(qt, cards)[i]);
    }
}

proof fn lemma_learnings_offered(qt: Seq<Seq<char>>, ls: Seq<LearningEntry>, pre: Seq<HitView>, post: Seq<HitView>)
    ensures
        offers_learnings(pre + learning_hits(qt, ls) + post, ls),
{
    let cand = pre + learning_hits(qt, ls) + post;
    assert forall|i: int| #![trigger ls[i]] 0 <= i < ls.len() implies exists|j: int|
        #![trigger cand[j]]
        0 <= j < cand.len() && cand[j].layer == RetrievalLayer::Learning && cand[j].value
            =~= ls[i].correction.error_signature@ + " "@ + ls[i].correction.root_cause@ + " "@
            + ls[i].correction.correction@ by {
        assert(cand[pre.len() + i] == learning_hits(qt, ls)[i]);
    }
}

proof fn lemma_durable_offered(qt: Seq<Seq<char>>, perm: Seq<&PermanentMemoryEntry>, c: PermanentContents, pre: Seq<HitView>)
    requires
        lists_contents(perm, c),
    ensures
        offers_durable(pre + permanent_hits(qt, perm), c),
{
    let cand = pre + permanent_hits(qt, perm);
    assert forall|k: Seq<char>| #[trigger] c.contains_key(k) implies exists|j: int|
        #![trigger cand[j]]
        0 <= j < cand.len() && cand[j].layer == RetrievalLayer::Permanent && cand[j].value =~= k + " "@
            + c[k].value by {
        assert(ref_keys(perm).to_set().contains(k));
        let i = choose|i: int| 0 <= i < ref_keys(perm).len() && ref_keys(perm)[i] == k;
        assert(perm[i].key@ == k);
        assert(entry_view(*perm[i]) == c[k]);
        assert(cand[pre.len() + i] == permanent_hits(qt, perm)[i]);
    }
}

/// Which layers each intent searches, and that a searched layer offers every
/// item it holds: the short-term layer for immediate context, session recall
/// and a balanced query; the summaries for session recall, durable rules and
/// a balanced query; the learning layer for error avoidance and a balanced
/// query; the permanent layer for every intent but session recall. A layer
/// not searched offers no candidate.
pub proof fn law_retrieval_layers_by_intent<S: InteractionSummarizer>(
    e: MemoryEngine<S>,
    intent: RetrievalIntent,
    text: Seq<char>,
    listing: Seq<&PermanentMemoryEntry>,
)
    requires
        lists_contents(listing, e.permanent.contents()),
    ensures
        ({
            let cand = candidates_for(e, intent, text);
            let st = intent == RetrievalIntent::ImmediateContext || intent == RetrievalIntent::SessionRecall
                || intent == RetrievalIntent::Balanced;
            let sm = intent == RetrievalIntent::SessionRecall || intent == RetrievalIntent::DurableRules
                || intent == RetrievalIntent::Balanced;
            let le = intent == RetrievalIntent::ErrorAvoidance || intent == RetrievalIntent::Balanced;
            let pm = intent != RetrievalIntent::SessionRecall;
            &&& st ==> offers_records(cand, e.short_term.items())
            &&& sm ==> offers_cards(cand, e.summaries@)
            &&& le ==> offers_learnings(cand, e.learning.items())
            &&& pm ==> offers_durable(cand, e.permanent.contents())
            &&& forall|j: int|
                0 <= j < cand.len() ==> match (#[trigger] cand[j]).layer {
                    RetrievalLayer::ShortTerm => st,
                    RetrievalLayer::Summary => sm,
                    RetrievalLayer::Learning => le,
                    RetrievalLayer::Permanent => pm,
                }
        }),
{
    let qt = crate::text::tokens(text);
    let (s, m, l, p) = layers_for(intent);
    let perm = choose|es: Seq<&PermanentMemoryEntry>| lists_contents(es, e.permanent.contents());
    assert(lists_contents(perm, e.permanent.contents()));
    let e0: Seq<HitView> = Seq::empty();
    let a: Seq<HitView> = if s { short_term_hits(qt, e.short_term.items()) } else { e0 };
    let b: Seq<HitView> = if m { summary_hits(qt, e.summaries@) } else { e0 };
    let d: Seq<HitView> = if l { learning_hits(qt, e.learning.items()) } else { e0 };
    let f: Seq<HitView> = if p { permanent_hits(qt, perm) } else { e0 };
    let cand = candidates_for(e, intent, text);
    assert(cand == a + b + d + f);
    let st = intent == RetrievalIntent::ImmediateContext || intent == RetrievalIntent::SessionRecall || intent
        == RetrievalIntent::Balanced;
    let sm = intent == RetrievalIntent::SessionRecall || intent == RetrievalIntent::DurableRules || intent
        == RetrievalIntent::Balanced;
    let le = intent == RetrievalIntent::ErrorAvoidance || intent == RetrievalIntent::Balanced;
    let pm = intent != RetrievalIntent::SessionRecall;
    assert(s == st && m == sm && l == le && p == pm);
    if st {
        lemma_records_offered(qt, e.short_term.items(), e0, b + d + f);
        assert(cand =~= e0 + a + (b + d + f));
    }
    if sm {
        lemma_cards_offered(qt, e.summaries@, a, d + f);
        assert(cand =~= a + b + (d + f));
    }
    if le {
        lemma_learnings_offered(qt, e.learning.items(), a + b, f);
        assert(cand =~= (a + b) + d + f);
    }
    if pm {
        lemma_durable_offered(qt, perm, e.permanent.contents(), a + b + d);
    }
    assert forall|j: int| 0 <= j < cand.len() implies match (#[trigger] cand[j]).layer {
        RetrievalLayer::ShortTerm => st,
        RetrievalLayer::Summary => sm,
        RetrievalLayer::Learning => le,
        RetrievalLayer::Permanent => pm,
    } by {
        if j < a.len() {
            assert(cand[j] == a[j]);
        } else if j < a.len() + b.len() {
            assert(cand[j] == b[j - a.len()]);
        } else if j < a.len() + b.len() + d.len() {
            assert(cand[j] == d[j - a.len() - b.len()]);
        } else {
            assert(cand[j] == f[j - a.len() - b.len() - d.len()]);
        }
    }
}

/// When the query asks for at least as many results as there are
/// candidates, retrieval answers every candidate.
pub proof fn law_retrieval_keeps_all_when_room(candidates: Seq<HitView>, max: nat)
    requires
        candidates.len() <= max,
    ensures
        ranked(candidates, max).len() == candidates.len(),
        forall|j: int| 0 <= j < candidates.len() ==> ranked(candidates, max).contains(#[trigger] candidates[j]),
{
    broadcast use vstd::seq_lib::group_to_multiset_ensures;
    lemma_sort_desc(candidates);
    let s = sort_desc(candidates);
    assert forall|j: int| 0 <= j < candidates.len() implies ranked(candidates, max).contains(
        #[trigger] candidates[j],
    ) by {
        assert(candidates.to_multiset().count(candidates[j]) > 0);
        assert(s.to_multiset().count(candidates[j]) > 0);
    }
}

/// When there is room for every candidate, a query of any intent but
/// session recall answers every durable entry, as its key and value joined
/// by a space.
pub proof fn law_retrieval_answers_durable_entries<S: InteractionSummarizer>(
    e: MemoryEngine<S>,
    q: RetrievalQuery,
    listing: Seq<&PermanentMemoryEntry>,
    hits: Seq<HitView>,
)
    requires
        lists_contents(listing, e.permanent.contents()),
        hits == ranked(candidates_of(e, q), q.max_results as nat),
        candidates_of(e, q).len() <= q.max_results,
        q.intent != RetrievalIntent::SessionRecall,
    ensures
        offers_durable(hits, e.permanent.contents()),
{
    let cand = candidates_of(e, q);
    let c = e.permanent.contents();
    law_retrieval_layers_by_intent(e, q.intent, q.text@, listing);
    law_retrieval_keeps_all_when_room(cand, q.max_results as nat);
    assert forall|k: Seq<char>| #[trigger] c.contains_key(k) implies exists|j: int|
        #![trigger hits[j]]
        0 <= j < hits.len() && hits[j].layer == RetrievalLayer::Permanent && hits[j].value =~= k + " "@
            + c[k].value by {
        let j = choose|j: int|
            0 <= j < cand.len() && (#[trigger] cand[j]).layer == RetrievalLayer::Permanent && cand[j].value
                =~= k + " "@ + c[k].value;
        assert(hits.contains(cand[j]));
        let m = choose|m: int| 0 <= m < hits.len() && hits[m] == cand[j];
        assert(hits[m] == cand[j]);
    }
}

} // verus!
