//! Consolidation of the memory layers: short-term records without a card
//! get summarized, tagged cards become permanent entries, buffered errors
//! become learning entries.
use crate::memory::{
    ErrorCorrection, HeuristicSummarizer, LearningEntry, InteractionRecord, InteractionSummarizer, InteractionSummaryCard, MemoryEngine,
    MemoryError, MemoryPriority, PermanentContents, PermanentEntryView, PermanentMemoryEntry,
    PermanentMemoryKind,
};
use crate::text::{chars_of, hex_digits, lowercase, owned, push_str, to_lowercase, vviews};
use vstd::prelude::*;

verus! {

// ---------------------------------------------------------------------------
// Identifiers as text
// ---------------------------------------------------------------------------

/// The hyphenated lowercase form of a UUID given by its 128-bit value:
/// 32 hexadecimal digits grouped 8-4-4-4-12.
pub open spec fn uuid_text(id: u128) -> Seq<char> {
    let h = hex_digits(id as nat, 32);
    h.subrange(0, 8) + seq!['-'] + h.subrange(8, 12) + seq!['-'] + h.subrange(12, 16) + seq!['-']
        + h.subrange(16, 20) + seq!['-'] + h.subrange(20, 32)
}

/// `uuid::Uuid::from_u128(id).to_string()`: the uuid crate documents its
/// `Display` as the hyphenated lowercase form of the big-endian value.
#[verifier::external_body]
fn uuid_string(id: u128) -> (r: String)
    ensures
        r@ == uuid_text(id),
{
    uuid::Uuid::from_u128(id).to_string()
}

// ---------------------------------------------------------------------------
// Actions and plans
// ---------------------------------------------------------------------------

/// A consolidation step.
#[derive(Debug)]
pub enum ConsolidationAction {
    ShortTermToSummary { interaction_id: u128 },
    SummaryToPermanent {
        key: String,
        kind: PermanentMemoryKind,
        priority: MemoryPriority,
        value: String,
    },
    PendingErrorToLearning { error_signature: String },
}

/// The steps of a consolidation, in the order they are applied.
#[derive(Debug)]
pub struct ConsolidationPlan {
    pub actions: Vec<ConsolidationAction>,
}

/// What a consolidation step says, texts by their views.
pub enum ActionView {
    ShortTermToSummary(u128),
    SummaryToPermanent(PermanentPick),
    PendingErrorToLearning(Seq<char>),
}

/// A permanent entry picked from a card: key, kind, priority and value.
pub struct PermanentPick {
    pub key: Seq<char>,
    pub kind: PermanentMemoryKind,
    pub priority: MemoryPriority,
    pub value: Seq<char>,
}

pub open spec fn action_view(a: ConsolidationAction) -> ActionView {
    match a {
        ConsolidationAction::ShortTermToSummary { interaction_id } => ActionView::ShortTermToSummary(
            interaction_id,
        ),
        ConsolidationAction::SummaryToPermanent { key, kind, priority, value } =>
            ActionView::SummaryToPermanent(
            PermanentPick { key: key@, kind, priority, value: value@ },
        ),
        ConsolidationAction::PendingErrorToLearning { error_signature } =>
            ActionView::PendingErrorToLearning(error_signature@),
    }
}

pub open spec fn action_views(s: Seq<ConsolidationAction>) -> Seq<ActionView> {
    Seq::new(s.len(), |i: int| action_view(s[i]))
}

// ---------------------------------------------------------------------------
// What a plan holds
// ---------------------------------------------------------------------------

/// Some card carries the identifier `id`.
pub open spec fn summarized(cards: Seq<InteractionSummaryCard>, id: u128) -> bool {
    exists|j: int| 0 <= j < cards.len() && #[trigger] cards[j].interaction_id == id
}

/// Identifiers of the records that no card carries, in record order.
pub open spec fn unsummarized_ids(items: Seq<InteractionRecord>, cards: Seq<InteractionSummaryCard>) -> Seq<
    u128,
>
    decreases items.len(),
{
    if items.len() == 0 {
        Seq::empty()
    } else {
        let rest = unsummarized_ids(items.drop_last(), cards);
        if summarized(cards, items.last().interaction_id) {
            rest
        } else {
            rest.push(items.last().interaction_id)
        }
    }
}

/// The tags of a card, lowercased.
pub open spec fn lowered_tags(tags: Seq<String>) -> Seq<Seq<char>> {
    Seq::new(tags.len(), |i: int| lowercase(tags[i]@))
}

/// Key of the permanent entry a card yields for a tag.
pub open spec fn hint_key(needle: Seq<char>, id: u128) -> Seq<char> {
    "summary."@ + needle + "."@ + uuid_text(id)
}

/// The first tag of the fixed list that the card carries (case-insensitively)
/// decides the key, kind and priority of the permanent entry it yields.
pub open spec fn permanent_hint(card: InteractionSummaryCard) -> Option<
    (Seq<char>, PermanentMemoryKind, MemoryPriority),
> {
    let t = lowered_tags(card.tags@);
    let id = card.interaction_id;
    if t.contains("architecture"@) {
        Some((hint_key("architecture"@, id), PermanentMemoryKind::ArchitectureDecision, MemoryPriority::Critical))
    } else if t.contains("rule"@) {
        Some((hint_key("rule"@, id), PermanentMemoryKind::SystemRule, MemoryPriority::Critical))
    } else if t.contains("constraint"@) {
        Some((hint_key("constraint"@, id), PermanentMemoryKind::BusinessConstraint, MemoryPriority::High))
    } else if t.contains("convention"@) {
        Some((hint_key("convention"@, id), PermanentMemoryKind::DevelopmentConvention, MemoryPriority::High))
    } else if t.contains("objective"@) {
        Some((hint_key("objective"@, id), PermanentMemoryKind::LongTermObjective, MemoryPriority::High))
    } else if t.contains("preference"@) {
        Some((hint_key("preference"@, id), PermanentMemoryKind::UserPreference, MemoryPriority::Normal))
    } else {
        None
    }
}

/// Permanent entries picked from the cards, in card order, leaving out keys
/// that the store `c` already holds.
pub open spec fn permanent_picks(cards: Seq<InteractionSummaryCard>, c: PermanentContents) -> Seq<
    PermanentPick,
>
    decreases cards.len(),
{
    if cards.len() == 0 {
        Seq::empty()
    } else {
        let rest = permanent_picks(cards.drop_last(), c);
        match permanent_hint(cards.last()) {
            Some((key, kind, priority)) => if c.contains_key(key) {
                rest
            } else {
                rest.push(PermanentPick { key, kind, priority, value: cards.last().answer_summary@ })
            },
            None => rest,
        }
    }
}

pub open spec fn id_actions(ids: Seq<u128>) -> Seq<ActionView> {
    Seq::new(ids.len(), |i: int| ActionView::ShortTermToSummary(ids[i]))
}

pub open spec fn pick_actions(picks: Seq<PermanentPick>) -> Seq<ActionView> {
    Seq::new(picks.len(), |i: int| ActionView::SummaryToPermanent(picks[i]))
}

pub open spec fn pending_actions(ps: Seq<ErrorCorrection>) -> Seq<ActionView> {
    Seq::new(ps.len(), |i: int| ActionView::PendingErrorToLearning(ps[i].error_signature@))
}

/// The plan of consolidation for an engine: summaries for the records
/// without a card, then permanent entries from tagged cards, then learning
/// entries from buffered errors.
pub open spec fn plan_of<S: InteractionSummarizer>(e: MemoryEngine<S>) -> Seq<ActionView> {
    id_actions(unsummarized_ids(e.short_term.items(), e.summaries@)) + pick_actions(
        permanent_picks(e.summaries@, e.permanent.contents()),
    ) + pending_actions(e.pending_errors@)
}

/// `after` is `before` followed by one card per identifier of `ids`, each a
/// summary (as `summ` makes them) of the first record carrying that identifier.
pub open spec fn summaries_added<S: InteractionSummarizer>(
    summ: S,
    items: Seq<InteractionRecord>,
    ids: Seq<u128>,
    before: Seq<InteractionSummaryCard>,
    after: Seq<InteractionSummaryCard>,
) -> bool {
    &&& after.len() == before.len() + ids.len()
    &&& after.take(before.len() as int) == before
    &&& forall|k: int|
        0 <= k < ids.len() ==> summ.summarizes(
            items[first_with_id(items, ids[k])],
            #[trigger] after[before.len() + k],
        )
}

/// `after` is `before` followed by one entry per buffered error, in order,
/// tied to no interaction and with a confidence gain of 100 thousandths.
pub open spec fn learned(before: Seq<LearningEntry>, after: Seq<LearningEntry>, ps: Seq<ErrorCorrection>) -> bool {
    &&& after.len() == before.len() + ps.len()
    &&& after.take(before.len() as int) == before
    &&& forall|k: int|
        0 <= k < ps.len() ==> {
            let e = #[trigger] after[before.len() + k];
            e.correction == ps[k] && e.interaction_id is None && e.confidence_gain_milli == 100
        }
}

/// `e1` is `e0` after consolidation: the short-term layer and the summarizer
/// as they were; a card added for each record without one; the picked
/// permanent entries inserted where their keys were absent; one learning
/// entry per buffered error; and no buffered error left.
pub open spec fn consolidated<S: InteractionSummarizer>(e0: MemoryEngine<S>, e1: MemoryEngine<S>) -> bool {
    &&& e1.short_term == e0.short_term
    &&& e1.summarizer == e0.summarizer
    &&& summaries_added(
        e0.summarizer,
        e0.short_term.items(),
        unsummarized_ids(e0.short_term.items(), e0.summaries@),
        e0.summaries@,
        e1.summaries@,
    )
    &&& e1.permanent.contents() == insert_picks(
        e0.permanent.contents(),
        permanent_picks(e0.summaries@, e0.permanent.contents()),
    )
    &&& learned(e0.learning.items(), e1.learning.items(), e0.pending_errors@)
    &&& e1.pending_errors@.len() == 0
}

/// How far `i` reaches into the segment of length `n` that starts at `lo`.
pub open spec fn seg(i: int, lo: int, n: int) -> int {
    if i <= lo {
        0
    } else if i - lo >= n {
        n
    } else {
        i - lo
    }
}

/// The entry a pick becomes.
pub open spec fn pick_entry(p: PermanentPick) -> PermanentEntryView {
    PermanentEntryView { kind: p.kind, value: p.value, priority: p.priority, source: None, revision: 1 }
}

/// The store after inserting the picks in order, each only where its key is
/// still absent.
pub open spec fn insert_picks(c: PermanentContents, picks: Seq<PermanentPick>) -> PermanentContents
    decreases picks.len(),
{
    if picks.len() == 0 {
        c
    } else {
        let before = insert_picks(c, picks.drop_last());
        let p = picks.last();
        if before.contains_key(p.key) {
            before
        } else {
            before.insert(p.key, pick_entry(p))
        }
    }
}

/// Index of the first record with identifier `id`.
pub open spec fn first_with_id(items: Seq<InteractionRecord>, id: u128) -> int {
    choose|i: int|
        0 <= i < items.len() && items[i].interaction_id == id && forall|j: int|
            0 <= j < i ==> (#[trigger] items[j]).interaction_id != id
}

// ---------------------------------------------------------------------------
// Exec helpers
// ---------------------------------------------------------------------------

/// Whether a card carries `id`.
fn has_card(cards: &Vec<InteractionSummaryCard>, id: u128) -> (r: bool)
    ensures
        r == summarized(cards@, id),
{
    let mut j: usize = 0;
    while j < cards.len()
        invariant
            j <= cards@.len(),
            forall|k: int| 0 <= k < j ==> (#[trigger] cards@[k]).interaction_id != id,
        decreases cards.len() - j,
    {
        if cards[j].interaction_id == id {
            assert(cards@[j as int].interaction_id == id);
            return true;
        }
        j = j + 1;
    }
    false
}

/// `"summary." + needle + "." + id`.
fn key_for(needle: &str, id: u128) -> (r: String)
    ensures
        r@ == hint_key(needle@, id),
{
    let mut r = owned("summary.");
    push_str(&mut r, needle);
    push_str(&mut r, ".");
    let u = uuid_string(id);
    push_str(&mut r, u.as_str());
    r
}

/// Key, kind and priority of the permanent entry a card yields, if any.
pub fn summary_to_permanent_hint(card: &InteractionSummaryCard) -> (r: Option<
    (String, PermanentMemoryKind, MemoryPriority),
>)
    ensures
        match r {
            Some((k, kind, p)) => permanent_hint(*card) == Some((k@, kind, p)),
            None => permanent_hint(*card) is None,
        },
{
    let mut low: Vec<Vec<char>> = Vec::new();
    let mut i: usize = 0;
    while i < card.tags.len()
        invariant
            i <= card.tags@.len(),
            vviews(low@) == lowered_tags(card.tags@).take(i as int),
        decreases card.tags.len() - i,
    {
        let l = to_lowercase(card.tags[i].as_str());
        let v = chars_of(l.as_str());
        let ghost before = vviews(low@);
        assert(v@ == lowered_tags(card.tags@)[i as int]);
        low.push(v);
        assert(vviews(low@) =~= before.push(v@));
        i = i + 1;
        assert(vviews(low@) =~= lowered_tags(card.tags@).take(i as int));
    }
    assert(lowered_tags(card.tags@).take(i as int) =~= lowered_tags(card.tags@));
    let id = card.interaction_id;
    if crate::text::contains_chars(&low, &chars_of("architecture")) {
        Some((key_for("architecture", id), PermanentMemoryKind::ArchitectureDecision, MemoryPriority::Critical))
    } else if crate::text::contains_chars(&low, &chars_of("rule")) {
        Some((key_for("rule", id), PermanentMemoryKind::SystemRule, MemoryPriority::Critical))
    } else if crate::text::contains_chars(&low, &chars_of("constraint")) {
        Some((key_for("constraint", id), PermanentMemoryKind::BusinessConstraint, MemoryPriority::High))
    } else if crate::text::contains_chars(&low, &chars_of("convention")) {
        Some((key_for("convention", id), PermanentMemoryKind::DevelopmentConvention, MemoryPriority::High))
    } else if crate::text::contains_chars(&low, &chars_of("objective")) {
        Some((key_for("objective", id), PermanentMemoryKind::LongTermObjective, MemoryPriority::High))
    } else if crate::text::contains_chars(&low, &chars_of("preference")) {
        Some((key_for("preference", id), PermanentMemoryKind::UserPreference, MemoryPriority::Normal))
    } else {
        None
    }
}

// ---------------------------------------------------------------------------
// Lemmas
// ---------------------------------------------------------------------------

/// Each identifier of `unsummarized_ids` belongs to a record and to no card.
proof fn lemma_unsummarized_present(items: Seq<InteractionRecord>, cards: Seq<InteractionSummaryCard>, k: int)
    requires
        0 <= k < unsummarized_ids(items, cards).len(),
    ensures
        exists|m: int| 0 <= m < items.len() && #[trigger] items[m].interaction_id == unsummarized_ids(items, cards)[k],
        !summarized(cards, unsummarized_ids(items, cards)[k]),
    decreases items.len(),
{
    let rest = unsummarized_ids(items.drop_last(), cards);
    if k < rest.len() {
        lemma_unsummarized_present(items.drop_last(), cards, k);
        let m = choose|m: int| 0 <= m < items.drop_last().len() && #[trigger] items.drop_last()[m].interaction_id == rest[k];
        assert(items[m].interaction_id == rest[k]);
    } else {
        assert(items[items.len() - 1].interaction_id == unsummarized_ids(items, cards)[k]);
    }
}

/// Every record is either summarized already or listed by `unsummarized_ids`.
proof fn lemma_unsummarized_covers(items: Seq<InteractionRecord>, cards: Seq<InteractionSummaryCard>, i: int)
    requires
        0 <= i < items.len(),
    ensures
        summarized(cards, items[i].interaction_id) || unsummarized_ids(items, cards).contains(
            items[i].interaction_id,
        ),
    decreases items.len(),
{
    let rest = unsummarized_ids(items.drop_last(), cards);
    if i < items.len() - 1 {
        lemma_unsummarized_covers(items.drop_last(), cards, i);
        assert(items.drop_last()[i] == items[i]);
        if rest.contains(items[i].interaction_id) {
            let k = choose|k: int| 0 <= k < rest.len() && rest[k] == items[i].interaction_id;
            assert(unsummarized_ids(items, cards)[k] == items[i].interaction_id);
        }
    } else if !summarized(cards, items[i].interaction_id) {
        assert(unsummarized_ids(items, cards).last() == items[i].interaction_id);
    }
}

/// When every record is summarized, nothing is left to summarize.
proof fn lemma_none_unsummarized(items: Seq<InteractionRecord>, cards: Seq<InteractionSummaryCard>)
    requires
        forall|i: int| 0 <= i < items.len() ==> summarized(cards, #[trigger] items[i].interaction_id),
    ensures
        unsummarized_ids(items, cards).len() == 0,
    decreases items.len(),
{
    if items.len() > 0 {
        assert forall|i: int| 0 <= i < items.drop_last().len() implies summarized(
            cards,
            #[trigger] items.drop_last()[i].interaction_id,
        ) by {
            assert(items.drop_last()[i] == items[i]);
        }
        lemma_none_unsummarized(items.drop_last(), cards);
        assert(summarized(cards, items[items.len() - 1].interaction_id));
    }
}

/// Some record carries `id` at or before `m`, and none before the first one.
proof fn lemma_first_exists(items: Seq<InteractionRecord>, id: u128, m: int)
    requires
        0 <= m < items.len(),
        items[m].interaction_id == id,
    ensures
        0 <= first_with_id(items, id) <= m,
        items[first_with_id(items, id)].interaction_id == id,
        forall|j: int| 0 <= j < first_with_id(items, id) ==> (#[trigger] items[j]).interaction_id != id,
    decreases m,
{
    if exists|j: int| 0 <= j < m && #[trigger] items[j].interaction_id == id {
        let j = choose|j: int| 0 <= j < m && #[trigger] items[j].interaction_id == id;
        lemma_first_exists(items, id, j);
    } else {
        assert(forall|j: int| 0 <= j < m ==> (#[trigger] items[j]).interaction_id != id);
        let c = first_with_id(items, id);
        if c > m {
            assert(items[m].interaction_id != id);
        }
    }
}

/// The first record with an identifier is found where a search stops.
proof fn lemma_first_with_id(items: Seq<InteractionRecord>, id: u128, j: int)
    requires
        0 <= j < items.len(),
        items[j].interaction_id == id,
        forall|k: int| 0 <= k < j ==> (#[trigger] items[k]).interaction_id != id,
    ensures
        first_with_id(items, id) == j,
{
    let c = first_with_id(items, id);
    assert(0 <= c < items.len() && items[c].interaction_id == id);
    if c < j {
        assert(items[c].interaction_id != id);
    } else if j < c {
        assert(items[j].interaction_id != id);
    }
}

// ---------------------------------------------------------------------------
// Planning and applying
// ---------------------------------------------------------------------------

/// Consolidation of memory layers.
pub trait MemoryConsolidator {
    /// The memory is in a state consolidation can work on.
    spec fn consolidation_ready(&self) -> bool;

    fn plan_consolidation(&self) -> (p: ConsolidationPlan)
        requires
            self.consolidation_ready(),
    ;

    fn apply_consolidation(&mut self) -> (r: Result<ConsolidationPlan, MemoryError>)
        requires
            old(self).consolidation_ready(),
        ensures
            final(self).consolidation_ready(),
    ;
}

impl<S: InteractionSummarizer> MemoryConsolidator for MemoryEngine<S> {
    open spec fn consolidation_ready(&self) -> bool {
        self.wf()
    }

    fn plan_consolidation(&self) -> (p: ConsolidationPlan)
        ensures
            action_views(p.actions@) == plan_of(*self),
    {
        let ghost items = self.short_term.items();
        let ghost cards = self.summaries@;
        let ghost c = self.permanent.contents();
        let ghost ps = self.pending_errors@;
        let ghost ids = unsummarized_ids(items, cards);
        let ghost picks = permanent_picks(cards, c);
        let mut actions: Vec<ConsolidationAction> = Vec::new();
        let recent = self.short_term.recent();
        let mut i: usize = 0;
        assert(action_views(actions@) =~= id_actions(unsummarized_ids(items.take(0), cards)));
        while i < recent.len()
            invariant
                i <= recent@.len(),
                recent@ == items,
                cards == self.summaries@,
                action_views(actions@) == id_actions(unsummarized_ids(items.take(i as int), cards)),
            decreases recent.len() - i,
        {
            assert(items.take(i + 1).drop_last() =~= items.take(i as int));
            assert(items.take(i + 1).last() == items[i as int]);
            let id = recent[i].interaction_id;
            if !has_card(&self.summaries, id) {
                let ghost before = action_views(actions@);
                actions.push(ConsolidationAction::ShortTermToSummary { interaction_id: id });
                assert(action_views(actions@) =~= before.push(ActionView::ShortTermToSummary(id)));
                assert(id_actions(unsummarized_ids(items.take(i + 1), cards)) =~= before.push(
                    ActionView::ShortTermToSummary(id),
                ));
            }
            i = i + 1;
        }
        assert(items.take(i as int) =~= items);
        let mut j: usize = 0;
        assert(action_views(actions@) =~= id_actions(ids) + pick_actions(permanent_picks(cards.take(0), c)));
        while j < self.summaries.len()
            invariant
                j <= cards.len(),
                cards == self.summaries@,
                c == self.permanent.contents(),
                self.permanent.wf(),
                action_views(actions@) == id_actions(ids) + pick_actions(
                    permanent_picks(cards.take(j as int), c),
                ),
            decreases self.summaries.len() - j,
        {
            assert(cards.take(j + 1).drop_last() =~= cards.take(j as int));
            assert(cards.take(j + 1).last() == cards[j as int]);
            let card = &self.summaries[j];
            match summary_to_permanent_hint(card) {
                Some((key, kind, priority)) => {
                    if self.permanent.get(key.as_str()).is_none() {
                        let ghost before = action_views(actions@);
                        let value = crate::text::copy_string(&card.answer_summary);
                        let ghost pick = PermanentPick { key: key@, kind, priority, value: value@ };
                        actions.push(ConsolidationAction::SummaryToPermanent { key, kind, priority, value });
                        assert(action_views(actions@) =~= before.push(ActionView::SummaryToPermanent(pick)));
                        assert(id_actions(ids) + pick_actions(permanent_picks(cards.take(j + 1), c))
                            =~= before.push(ActionView::SummaryToPermanent(pick)));
                    } else {
                        assert(permanent_picks(cards.take(j + 1), c) == permanent_picks(cards.take(j as int), c));
                    }
                },
                None => {},
            }
            j = j + 1;
        }
        assert(cards.take(j as int) =~= cards);
        let mut k: usize = 0;
        assert(action_views(actions@) =~= id_actions(ids) + pick_actions(picks) + pending_actions(ps.take(0)));
        while k < self.pending_errors.len()
            invariant
                k <= ps.len(),
                ps == self.pending_errors@,
                action_views(actions@) == id_actions(ids) + pick_actions(picks) + pending_actions(
                    ps.take(k as int),
                ),
            decreases self.pending_errors.len() - k,
        {
            let ghost before = action_views(actions@);
            let sig = crate::text::copy_string(&self.pending_errors[k].error_signature);
            let ghost sv = sig@;
            actions.push(ConsolidationAction::PendingErrorToLearning { error_signature: sig });
            assert(action_views(actions@) =~= before.push(ActionView::PendingErrorToLearning(sv)));
            k = k + 1;
            assert(id_actions(ids) + pick_actions(picks) + pending_actions(ps.take(k as int)) =~= before.push(
                ActionView::PendingErrorToLearning(sv),
            ));
        }
        assert(ps.take(k as int) =~= ps);
        ConsolidationPlan { actions }
    }

    fn apply_consolidation(&mut self) -> (r: Result<ConsolidationPlan, MemoryError>)
        ensures
            match r {
                Ok(p) => action_views(p.actions@) == plan_of(*old(self)),
                Err(_) => false,
            },
            consolidated(*old(self), *final(self)),
    {
        let plan = self.plan_consolidation();
        let ghost items = self.short_term.items();
        let ghost st0 = self.short_term;
        let ghost summ0 = self.summarizer;
        let ghost s0 = self.summaries@;
        let ghost c0 = self.permanent.contents();
        let ghost l0 = self.learning.items();
        let ghost ps = self.pending_errors@;
        let ghost ids = unsummarized_ids(items, s0);
        let ghost picks = permanent_picks(s0, c0);
        let ghost n1 = ids.len() as int;
        let ghost n2 = picks.len() as int;
        let ghost n3 = ps.len() as int;
        let ghost pv = id_actions(ids) + pick_actions(picks) + pending_actions(ps);
        assert(summaries_added(summ0, items, ids.take(0), s0, self.summaries@)) by {
            assert(s0.take(s0.len() as int) =~= s0);
        }
        assert(learned(l0, self.learning.items(), ps.take(0))) by {
            assert(l0.take(l0.len() as int) =~= l0);
        }
        assert(ps.skip(0) =~= ps);
        assert(picks.take(0) =~= Seq::<PermanentPick>::empty());
        let mut i: usize = 0;
        while i < plan.actions.len()
            invariant
                action_views(plan.actions@) == pv,
                pv == id_actions(ids) + pick_actions(picks) + pending_actions(ps),
                pv.len() == n1 + n2 + n3,
                n1 == ids.len(),
                n2 == picks.len(),
                ids == unsummarized_ids(items, s0),
                picks == permanent_picks(s0, c0),
                n3 == ps.len(),
                i <= plan.actions@.len(),
                self.wf(),
                self.short_term == st0,
                items == st0.items(),
                self.summarizer == summ0,
                summaries_added(summ0, items, ids.take(seg(i as int, 0, n1)), s0, self.summaries@),
                self.permanent.contents() == insert_picks(c0, picks.take(seg(i as int, n1, n2))),
                learned(l0, self.learning.items(), ps.take(seg(i as int, n1 + n2, n3))),
                self.pending_errors@ == ps.skip(seg(i as int, n1 + n2, n3)),
            decreases plan.actions.len() - i,
        {
            let ghost av = pv[i as int];
            assert(action_views(plan.actions@)[i as int] == av);
            match &plan.actions[i] {
                ConsolidationAction::ShortTermToSummary { interaction_id } => {
                    let id = *interaction_id;
                    assert(i < n1) by {
                        if i >= n1 {
                            if i < n1 + n2 {
                                assert(pv[i as int] == pick_actions(picks)[i - n1]);
                            } else {
                                assert(pv[i as int] == pending_actions(ps)[i - n1 - n2]);
                            }
                        }
                    }
                    assert(pv[i as int] == id_actions(ids)[i as int]);
                    assert(id == ids[i as int]);
                    proof {
                        lemma_unsummarized_present(items, s0, i as int);
                    }
                    let recent = self.short_term.recent();
                    let mut j: usize = 0;
                    while j < recent.len() && recent[j].interaction_id != id
                        invariant
                            j <= recent@.len(),
                            recent@ == items,
                            exists|m: int| 0 <= m < items.len() && #[trigger] items[m].interaction_id == id,
                            forall|k: int| 0 <= k < j ==> (#[trigger] items[k]).interaction_id != id,
                        decreases recent.len() - j,
                    {
                        j = j + 1;
                    }
                    assert(j < recent@.len()) by {
                        if j >= recent@.len() {
                            let m = choose|m: int| 0 <= m < items.len() && #[trigger] items[m].interaction_id == id;
                            assert(items[m].interaction_id != id);
                        }
                    }
                    proof {
                        lemma_first_with_id(items, id, j as int);
                    }
                    let card = self.summarizer.summarize(&recent[j]);
                    let ghost before = self.summaries@;
                    self.summaries.push(card);
                    proof {
                        let t = ids.take(i + 1);
                        assert(ids.take(i as int).len() == i);
                        assert(self.summaries@.take(s0.len() as int) =~= before.take(s0.len() as int));
                        assert forall|k: int| 0 <= k < t.len() implies summ0.summarizes(
                            items[first_with_id(items, t[k])],
                            #[trigger] self.summaries@[s0.len() + k],
                        ) by {
                            if k < i {
                                assert(t[k] == ids.take(i as int)[k]);
                                assert(self.summaries@[s0.len() + k] == before[s0.len() + k]);
                            }
                        }
                    }
                },
                ConsolidationAction::SummaryToPermanent { key, kind, priority, value } => {
                    assert(n1 <= i < n1 + n2) by {
                        if i < n1 {
                            assert(pv[i as int] == id_actions(ids)[i as int]);
                        } else if i >= n1 + n2 {
                            assert(pv[i as int] == pending_actions(ps)[i - n1 - n2]);
                        }
                    }
                    let ghost q = i - n1;
                    assert(pv[i as int] == pick_actions(picks)[q]);
                    assert(picks.take(q + 1).drop_last() =~= picks.take(q));
                    assert(picks.take(q + 1).last() == picks[q]);
                    let entry = PermanentMemoryEntry::new(key.as_str(), *kind, value.as_str(), *priority);
                    assert(crate::memory::entry_view(entry) == pick_entry(picks[q]));
                    if self.permanent.get(key.as_str()).is_none() {
                        match self.permanent.insert(entry) {
                            Ok(()) => {},
                            Err(e) => {
                                return Err(e);
                            },
                        }
                    }
                },
                ConsolidationAction::PendingErrorToLearning { error_signature } => {
                    assert(n1 + n2 <= i) by {
                        if i < n1 {
                            assert(pv[i as int] == id_actions(ids)[i as int]);
                        } else if i < n1 + n2 {
                            assert(pv[i as int] == pick_actions(picks)[i - n1]);
                        }
                    }
                    let ghost q = i - n1 - n2;
                    assert(pv[i as int] == pending_actions(ps)[q]);
                    assert(error_signature@ == ps[q].error_signature@);
                    assert(self.pending_errors@[0] == ps[q]);
                    let mut pos: usize = 0;
                    while pos < self.pending_errors.len() && !crate::text::str_eq(
                        self.pending_errors[pos].error_signature.as_str(),
                        error_signature.as_str(),
                    )
                        invariant
                            pos <= self.pending_errors@.len(),
                            self.pending_errors@.len() > 0,
                            self.pending_errors@[0].error_signature@ == error_signature@,
                            forall|k: int|
                                0 <= k < pos ==> (#[trigger] self.pending_errors@[k]).error_signature@
                                    != error_signature@,
                        decreases self.pending_errors.len() - pos,
                    {
                        pos = pos + 1;
                    }
                    assert(pos == 0) by {
                        if pos > 0 {
                            assert(self.pending_errors@[0].error_signature@ != error_signature@);
                        }
                    }
                    let correction = self.pending_errors.remove(pos);
                    assert(correction == ps[q]);
                    assert(self.pending_errors@ =~= ps.skip(q + 1));
                    let ghost lb = self.learning.items();
                    self.ingest_learning(None, correction, 100);
                    proof {
                        let la = self.learning.items();
                        assert(la.take(l0.len() as int) =~= lb.take(l0.len() as int));
                        let t = ps.take(q + 1);
                        assert forall|k: int| 0 <= k < t.len() implies {
                            let e = #[trigger] la[l0.len() + k];
                            e.correction == t[k] && e.interaction_id is None && e.confidence_gain_milli == 100
                        } by {
                            if k < q {
                                assert(la[l0.len() + k] == lb[l0.len() + k]);
                                assert(t[k] == ps.take(q)[k]);
                            }
                        }
                    }
                },
            }
            i = i + 1;
        }
        proof {
            assert(ids.take(n1) =~= ids);
            assert(picks.take(n2) =~= picks);
            assert(ps.take(n3) =~= ps);
        }
        Ok(plan)
    }
}

// ---------------------------------------------------------------------------
// Laws
// ---------------------------------------------------------------------------

/// With the heuristic summarizer, consolidation leaves every short-term
/// record summarized, so a second consolidation summarizes nothing more.
pub proof fn law_consolidation_summarizes_every_record(
    items: Seq<InteractionRecord>,
    before: Seq<InteractionSummaryCard>,
    after: Seq<InteractionSummaryCard>,
)
    requires
        summaries_added(HeuristicSummarizer, items, unsummarized_ids(items, before), before, after),
    ensures
        forall|i: int| 0 <= i < items.len() ==> summarized(after, #[trigger] items[i].interaction_id),
        unsummarized_ids(items, after).len() == 0,
{
    let ids = unsummarized_ids(items, before);
    assert forall|i: int| 0 <= i < items.len() implies summarized(after, #[trigger] items[i].interaction_id) by {
        let id = items[i].interaction_id;
        lemma_unsummarized_covers(items, before, i);
        if summarized(before, id) {
            let j = choose|j: int| 0 <= j < before.len() && #[trigger] before[j].interaction_id == id;
            assert(after.take(before.len() as int)[j] == before[j]);
            assert(after[j].interaction_id == id);
        } else {
            let k = choose|k: int| 0 <= k < ids.len() && ids[k] == id;
            lemma_unsummarized_present(items, before, k);
            let m = choose|m: int| 0 <= m < items.len() && #[trigger] items[m].interaction_id == ids[k];
            lemma_first_exists(items, ids[k], m);
            let f = first_with_id(items, ids[k]);
            assert(heuristic_card_id(items[f], after[before.len() + k]));
            assert(after[before.len() + k].interaction_id == id);
        }
    }
    lemma_none_unsummarized(items, after);
}

/// The heuristic card of a record carries the record's identifier.
spec fn heuristic_card_id(i: InteractionRecord, c: InteractionSummaryCard) -> bool {
    c.interaction_id == i.interaction_id
}

/// Consolidation keeps every durable entry as it was and adds an entry for
/// each picked key that was absent.
pub proof fn law_consolidation_never_overwrites(c: PermanentContents, picks: Seq<PermanentPick>)
    ensures
        forall|k: Seq<char>| #[trigger] c.contains_key(k) ==> insert_picks(c, picks).contains_key(k)
            && insert_picks(c, picks)[k] == c[k],
        forall|i: int| 0 <= i < picks.len() ==> insert_picks(c, picks).contains_key(#[trigger] picks[i].key),
        forall|k: Seq<char>|
            #[trigger] insert_picks(c, picks).contains_key(k) ==> c.contains_key(k) || exists|i: int|
                0 <= i < picks.len() && picks[i].key == k,
    decreases picks.len(),
{
    if picks.len() > 0 {
        let rest = picks.drop_last();
        law_consolidation_never_overwrites(c, rest);
        assert forall|i: int| 0 <= i < picks.len() implies insert_picks(c, picks).contains_key(
            #[trigger] picks[i].key,
        ) by {
            if i < picks.len() - 1 {
                assert(rest[i] == picks[i]);
            }
        }
        assert forall|k: Seq<char>| #[trigger] insert_picks(c, picks).contains_key(k) implies c.contains_key(k)
            || exists|i: int| 0 <= i < picks.len() && picks[i].key == k by {
            if insert_picks(c, rest).contains_key(k) && !c.contains_key(k) {
                let i = choose|i: int| 0 <= i < rest.len() && rest[i].key == k;
                assert(picks[i] == rest[i]);
            } else if !c.contains_key(k) {
                assert(picks[picks.len() - 1].key == k);
            }
        }
    }
}

/// Without tagged cards and buffered errors, consolidation adds no durable
/// entry and no learning entry.
pub proof fn law_consolidation_needs_triggers(
    cards: Seq<InteractionSummaryCard>,
    c: PermanentContents,
    l0: Seq<LearningEntry>,
    l1: Seq<LearningEntry>,
)
    requires
        forall|j: int| 0 <= j < cards.len() ==> permanent_hint(#[trigger] cards[j]) is None,
        learned(l0, l1, Seq::empty()),
    ensures
        permanent_picks(cards, c).len() == 0,
        insert_picks(c, permanent_picks(cards, c)) == c,
        l1 == l0,
    decreases cards.len(),
{
    if cards.len() > 0 {
        assert forall|j: int| 0 <= j < cards.drop_last().len() implies permanent_hint(
            #[trigger] cards.drop_last()[j],
        ) is None by {
            assert(cards.drop_last()[j] == cards[j]);
        }
        law_consolidation_needs_triggers(cards.drop_last(), c, l0, l1);
        assert(permanent_hint(cards[cards.len() - 1]) is None);
    }
    assert(l1 =~= l1.take(l0.len() as int));
}

/// What one consolidation does, read off its plan `p`: each summary action of
/// `p`, in order, adds one card summarizing the first record it names and no
/// other card is added; each permanent action's key is present afterwards,
/// every earlier durable entry is kept as it was, and no other key appears;
/// each buffered error becomes, in order, one learning entry carrying the
/// signature of its learning action; the buffer is emptied and the short-term
/// layer is untouched. With no tagged card and no buffered error, learning and
/// durable memory stay as they were; with an empty plan, nothing changes.
pub proof fn law_consolidation_effect<S: InteractionSummarizer>(e0: MemoryEngine<S>, e1: MemoryEngine<S>)
    requires
        consolidated(e0, e1),
    ensures
        ({
            let p = plan_of(e0);
            let items = e0.short_term.items();
            let n = e1.summaries@.len() - e0.summaries@.len();
            let l0 = e0.learning.items();
            let l1 = e1.learning.items();
            let np = e0.pending_errors@.len();
            &&& e1.short_term == e0.short_term
            &&& e1.pending_errors@.len() == 0
            &&& 0 <= n <= p.len()
            &&& e1.summaries@.take(e0.summaries@.len() as int) == e0.summaries@
            &&& forall|i: int| 0 <= i < p.len() ==> ((#[trigger] p[i] is ShortTermToSummary) <==> i < n)
            &&& forall|i: int|
                0 <= i < p.len() ==> (#[trigger] p[i] matches ActionView::ShortTermToSummary(id) ==> e0.summarizer.summarizes(
                    items[first_with_id(items, id)],
                    e1.summaries@[e0.summaries@.len() + i],
                ))
            &&& forall|i: int|
                0 <= i < p.len() ==> (#[trigger] p[i] matches ActionView::SummaryToPermanent(pick)
                    ==> e1.permanent.contents().contains_key(pick.key))
            &&& forall|k: Seq<char>| #[trigger]
                e0.permanent.contents().contains_key(k) ==> e1.permanent.contents().contains_key(k)
                    && e1.permanent.contents()[k] == e0.permanent.contents()[k]
            &&& forall|k: Seq<char>| #[trigger]
                e1.permanent.contents().contains_key(k) ==> e0.permanent.contents().contains_key(k) || exists|i: int|
                    0 <= i < p.len() && (#[trigger] p[i] matches ActionView::SummaryToPermanent(pick) && pick.key == k)
            &&& l1.len() == l0.len() + np
            &&& l1.take(l0.len() as int) == l0
            &&& np <= p.len()
            &&& forall|k: int|
                0 <= k < np ==> p[p.len() - np + k] == ActionView::PendingErrorToLearning(
                    (#[trigger] l1[l0.len() + k]).correction.error_signature@,
                )
            &&& (forall|j: int| 0 <= j < e0.summaries@.len() ==> permanent_hint(#[trigger] e0.summaries@[j]) is None)
                && np == 0 ==> l1 == l0 && e1.permanent.contents() == e0.permanent.contents()
            &&& p.len() == 0 ==> e1.summaries@ == e0.summaries@ && l1 == l0 && e1.permanent.contents()
                == e0.permanent.contents()
        }),
{
    let items = e0.short_term.items();
    let s0 = e0.summaries@;
    let c0 = e0.permanent.contents();
    let ps = e0.pending_errors@;
    let ids = unsummarized_ids(items, s0);
    let picks = permanent_picks(s0, c0);
    let p = plan_of(e0);
    let n1 = ids.len() as int;
    let n2 = picks.len() as int;
    let l0 = e0.learning.items();
    let l1 = e1.learning.items();
    assert(p.len() == n1 + n2 + ps.len());
    assert forall|i: int| 0 <= i < p.len() implies ((#[trigger] p[i] is ShortTermToSummary) <==> i < n1) by {
        if i < n1 {
            assert(p[i] == id_actions(ids)[i]);
        } else if i < n1 + n2 {
            assert(p[i] == pick_actions(picks)[i - n1]);
        } else {
            assert(p[i] == pending_actions(ps)[i - n1 - n2]);
        }
    }
    assert forall|i: int| 0 <= i < p.len() implies (#[trigger] p[i] matches ActionView::ShortTermToSummary(id)
        ==> e0.summarizer.summarizes(items[first_with_id(items, id)], e1.summaries@[s0.len() + i])) by {
        if i < n1 {
            assert(p[i] == id_actions(ids)[i]);
        }
    }
    law_consolidation_never_overwrites(c0, picks);
    assert forall|i: int| 0 <= i < p.len() implies (#[trigger] p[i] matches ActionView::SummaryToPermanent(pick)
        ==> e1.permanent.contents().contains_key(pick.key)) by {
        if n1 <= i < n1 + n2 {
            assert(p[i] == pick_actions(picks)[i - n1]);
        } else if i < n1 {
            assert(p[i] == id_actions(ids)[i]);
        } else {
            assert(p[i] == pending_actions(ps)[i - n1 - n2]);
        }
    }
    assert forall|k: Seq<char>| #[trigger] e1.permanent.contents().contains_key(k) implies c0.contains_key(k)
        || exists|i: int| 0 <= i < p.len() && (#[trigger] p[i] matches ActionView::SummaryToPermanent(pick) && pick.key
        == k) by {
        if !c0.contains_key(k) {
            let j = choose|j: int| 0 <= j < picks.len() && picks[j].key == k;
            assert(p[n1 + j] == pick_actions(picks)[j]);
        }
    }
    assert forall|k: int| 0 <= k < ps.len() implies p[p.len() - ps.len() + k] == ActionView::PendingErrorToLearning(
        (#[trigger] l1[l0.len() + k]).correction.error_signature@,
    ) by {
        assert(p[n1 + n2 + k] == pending_actions(ps)[k]);
    }
    if (forall|j: int| 0 <= j < s0.len() ==> permanent_hint(#[trigger] s0[j]) is None) && ps.len() == 0 {
        assert(learned(l0, l1, Seq::empty())) by {
            assert(ps =~= Seq::<ErrorCorrection>::empty());
        }
        law_consolidation_needs_triggers(s0, c0, l0, l1);
    }
    if p.len() == 0 {
        assert(e1.summaries@ =~= e1.summaries@.take(s0.len() as int));
        assert(picks.len() == 0);
        assert(l1 =~= l1.take(l0.len() as int));
    }
}

} // verus!
