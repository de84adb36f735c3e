use pata::consolidation::MemoryConsolidator;
use pata::memory::{
    copy_interaction, ErrorCorrection, HeuristicSummarizer, InMemoryPermanentBackend,
    InteractionRecord, LearningEntry, LearningMemory, MemoryEngine, MemoryError, MemoryPriority,
    MemoryRetriever, Message, MessageRole, OverwritePolicy, PermanentMemory, PermanentMemoryEntry,
    PermanentMemoryKind, PermanentMemoryUpdate, RetrievalIntent, RetrievalLayer, RetrievalQuery,
    ShortTermMemory,
};

#[test]
fn short_term_memory_evicts_oldest_interaction() {
    let mut stm = ShortTermMemory::with_capacity(2).expect("valid capacity");
    let first = InteractionRecord::new("a", "answer-a");
    let second = InteractionRecord::new("b", "answer-b");
    let third = InteractionRecord::new("c", "answer-c");

    stm.push(first);
    stm.push(copy_interaction(&second));
    stm.push(copy_interaction(&third));

    let recent: Vec<_> = stm.recent().iter().collect();
    assert_eq!(recent.len(), 2);
    assert_eq!(recent[0].objective, second.objective);
    assert_eq!(recent[1].objective, third.objective);
}

#[test]
fn engine_auto_generates_summary_card() {
    let mut engine =
        MemoryEngine::new(4, HeuristicSummarizer).expect("memory engine should initialize");
    let mut interaction = InteractionRecord::new(
        "Explain Rust ownership",
        "Ownership ensures memory safety. Borrowing avoids copies.",
    );
    interaction.messages.push(Message {
        role: MessageRole::User,
        content: "Can you explain ownership quickly?".to_string(),
    });
    interaction.tags = vec!["rust".to_string(), "teaching".to_string()];

    engine.ingest_interaction(copy_interaction(&interaction));

    assert_eq!(engine.short_term.recent().iter().count(), 1);
    assert_eq!(engine.summaries.len(), 1);
    assert_eq!(engine.summaries[0].interaction_id, interaction.interaction_id);
    assert!(engine.summaries[0].answer_summary.contains("Ownership ensures"));
    assert_eq!(engine.summaries[0].tags, vec!["rust", "teaching"]);
}

#[test]
fn learning_memory_indexes_entries_by_error_signature() {
    let mut learning = LearningMemory::default();
    learning.add(LearningEntry {
        id: uuid::Uuid::new_v4().as_u128(),
        interaction_id: None,
        correction: ErrorCorrection {
            error_signature: "E0502".to_string(),
            root_cause: "mutable and immutable borrow overlap".to_string(),
            correction: "split immutable borrow scope".to_string(),
            prevention_rule: "limit lifetimes and use scoped blocks".to_string(),
        },
        confidence_gain_milli: 200,
    });
    let found = learning.by_error_signature("E0502");
    assert_eq!(found.len(), 1);
    assert_eq!(found[0].correction.error_signature, "E0502");
}

#[test]
fn permanent_memory_insertion_and_reading_work() {
    let mut permanent: PermanentMemory<InMemoryPermanentBackend> = PermanentMemory::default();
    permanent
        .insert(PermanentMemoryEntry::new(
            "user.pref.style",
            PermanentMemoryKind::UserPreference,
            "concise",
            MemoryPriority::Normal,
        ))
        .expect("insert should work");
    let entry = permanent.get("user.pref.style").expect("entry must be retrievable");
    assert_eq!(entry.value, "concise");
    assert_eq!(entry.revision, 1);
}

#[test]
fn permanent_memory_update_is_explicit_and_safe() {
    let mut permanent: PermanentMemory<InMemoryPermanentBackend> = PermanentMemory::default();
    permanent
        .insert(PermanentMemoryEntry::new(
            "objective.platform",
            PermanentMemoryKind::LongTermObjective,
            "Build modular OSS reference",
            MemoryPriority::High,
        ))
        .expect("insert should work");
    permanent
        .update_safe(PermanentMemoryUpdate {
            key: "objective.platform".to_string(),
            new_value: "Build modular OSS Rust reference".to_string(),
            new_priority: Some(MemoryPriority::Critical),
            reason: "objective refined".to_string(),
            expected_revision: Some(1),
        })
        .expect("safe update should work for non-critical existing entry");
    let entry = permanent.get("objective.platform").expect("entry must exist");
    assert_eq!(entry.value, "Build modular OSS Rust reference");
    assert_eq!(entry.priority, MemoryPriority::Critical);
    assert_eq!(entry.revision, 2);
}

#[test]
fn permanent_memory_protects_critical_entries_from_safe_overwrite() {
    let mut permanent: PermanentMemory<InMemoryPermanentBackend> = PermanentMemory::default();
    let key = "architecture.rule.decoupling";
    permanent
        .insert(PermanentMemoryEntry::new(
            key,
            PermanentMemoryKind::ArchitectureDecision,
            "agent-core must not depend on persona crates",
            MemoryPriority::Critical,
        ))
        .expect("insert should work");
    let err = permanent
        .update_safe(PermanentMemoryUpdate {
            key: key.to_string(),
            new_value: "overwrite attempt".to_string(),
            new_priority: None,
            reason: "accidental".to_string(),
            expected_revision: Some(1),
        })
        .expect_err("safe update must be blocked for critical entry");
    assert!(matches!(err, MemoryError::CriticalOverwriteBlocked { ref key } if key == "architecture.rule.decoupling"));
}

#[test]
fn permanent_memory_force_update_allows_controlled_override() {
    let mut permanent: PermanentMemory<InMemoryPermanentBackend> = PermanentMemory::default();
    let key = "system.rule.audit";
    permanent
        .insert(PermanentMemoryEntry::new(
            key,
            PermanentMemoryKind::SystemRule,
            "Every tool call must be logged",
            MemoryPriority::Critical,
        ))
        .expect("insert should work");
    permanent
        .update_with_policy(
            PermanentMemoryUpdate {
                key: key.to_string(),
                new_value: "Every tool call and result must be logged".to_string(),
                new_priority: None,
                reason: "policy strengthening".to_string(),
                expected_revision: Some(1),
            },
            OverwritePolicy::Force,
        )
        .expect("force update should work");
    let entry = permanent.get(key).expect("entry should exist");
    assert_eq!(entry.value, "Every tool call and result must be logged");
    assert_eq!(entry.revision, 2);
}

#[test]
fn memory_engine_keeps_layers_logically_separated() {
    let mut engine =
        MemoryEngine::new(3, HeuristicSummarizer).expect("memory engine should initialize");
    engine.ingest_interaction(InteractionRecord::new("Draft README", "README drafted"));
    assert_eq!(engine.short_term.recent().iter().count(), 1);
    assert_eq!(engine.summaries.len(), 1);
    assert!(engine.learning.is_empty());
    assert_eq!(engine.permanent.all().len(), 0);
}

#[test]
fn retrieval_targets_expected_layers_by_intent() {
    let mut engine =
        MemoryEngine::new(3, HeuristicSummarizer).expect("memory engine should initialize");
    let mut interaction =
        InteractionRecord::new("Set architecture decision", "Use strict crate boundaries");
    interaction.tags = vec!["architecture".to_string()];
    engine.ingest_interaction(interaction);
    engine
        .permanent
        .insert(PermanentMemoryEntry::new(
            "system.rule.audit",
            PermanentMemoryKind::SystemRule,
            "All tool calls must be logged",
            MemoryPriority::Critical,
        ))
        .expect("insert should work");

    let short_hits = engine.retrieve(&RetrievalQuery::new(
        RetrievalIntent::SessionRecall,
        "architecture decision",
        5,
    ));
    assert!(short_hits.iter().any(|hit| hit.layer == RetrievalLayer::ShortTerm));
    assert!(short_hits.iter().any(|hit| hit.layer == RetrievalLayer::Summary));
    assert!(!short_hits.iter().any(|hit| hit.layer == RetrievalLayer::Learning));

    let durable_hits =
        engine.retrieve(&RetrievalQuery::new(RetrievalIntent::DurableRules, "audit rule", 5));
    assert!(durable_hits.iter().any(|hit| hit.layer == RetrievalLayer::Permanent));
}

#[test]
fn retrieval_prioritizes_critical_permanent_entries() {
    let mut engine =
        MemoryEngine::new(3, HeuristicSummarizer).expect("memory engine should initialize");
    engine
        .permanent
        .insert(PermanentMemoryEntry::new(
            "rule.normal",
            PermanentMemoryKind::SystemRule,
            "Audit logs retained",
            MemoryPriority::Normal,
        ))
        .expect("insert should work");
    engine
        .permanent
        .insert(PermanentMemoryEntry::new(
            "rule.critical",
            PermanentMemoryKind::SystemRule,
            "Audit logs retained",
            MemoryPriority::Critical,
        ))
        .expect("insert should work");
    let hits = engine.retrieve(&RetrievalQuery::new(
        RetrievalIntent::DurableRules,
        "audit logs retained",
        2,
    ));
    assert_eq!(hits.len(), 2);
    assert!(hits[0].value.contains("rule.critical"));
}

#[test]
fn consolidation_moves_data_across_layers_deterministically() {
    let mut engine =
        MemoryEngine::new(3, HeuristicSummarizer).expect("memory engine should initialize");
    let mut interaction = InteractionRecord::new(
        "Define architecture constraints",
        "Core must remain decoupled from persona crates",
    );
    interaction.tags = vec!["architecture".to_string()];
    engine.record_short_term_only(copy_interaction(&interaction));
    engine.buffer_error_for_learning(ErrorCorrection {
        error_signature: "E0502".to_string(),
        root_cause: "borrow overlap".to_string(),
        correction: "shorten borrow scope".to_string(),
        prevention_rule: "keep mutable scopes tight".to_string(),
    });
    let plan = engine.apply_consolidation().expect("consolidation should work");
    assert!(!plan.actions.is_empty());
    assert!(engine.summaries.iter().any(|s| s.interaction_id == interaction.interaction_id));
    assert_eq!(engine.learning.len(), 1);
}

#[test]
fn consolidation_preserves_layer_responsibilities() {
    let mut engine =
        MemoryEngine::new(3, HeuristicSummarizer).expect("memory engine should initialize");
    engine.record_short_term_only(InteractionRecord::new("Keep a temporary note", "Temporary answer"));
    let _ = engine.apply_consolidation().expect("consolidation should work");
    assert_eq!(engine.learning.len(), 0);
    assert_eq!(engine.permanent.all().len(), 0);
}

#[test]
fn short_term_memory_refuses_zero_capacity() {
    assert!(matches!(ShortTermMemory::with_capacity(0), Err(MemoryError::InvalidCapacity)));
}

#[test]
fn permanent_memory_refuses_duplicate_insert_and_stale_revision() {
    let mut permanent: PermanentMemory<InMemoryPermanentBackend> = PermanentMemory::default();
    permanent
        .insert(PermanentMemoryEntry::new("k", PermanentMemoryKind::SystemRule, "v1", MemoryPriority::Normal))
        .expect("insert should work");
    let dup = permanent
        .insert(PermanentMemoryEntry::new("k", PermanentMemoryKind::SystemRule, "v2", MemoryPriority::Normal))
        .expect_err("second insert must be refused");
    assert!(matches!(dup, MemoryError::EntryAlreadyExists { ref key } if key == "k"));
    assert_eq!(permanent.get("k").unwrap().value, "v1");
    let stale = permanent
        .update_safe(PermanentMemoryUpdate {
            key: "k".to_string(),
            new_value: "v3".to_string(),
            new_priority: None,
            reason: "r".to_string(),
            expected_revision: Some(7),
        })
        .expect_err("stale revision must be refused");
    assert!(matches!(stale, MemoryError::RevisionConflict { expected: 7, actual: 1, .. }));
    let missing = permanent
        .update_safe(PermanentMemoryUpdate {
            key: "absent".to_string(),
            new_value: "v".to_string(),
            new_priority: None,
            reason: "r".to_string(),
            expected_revision: None,
        })
        .expect_err("missing entry must be reported");
    assert!(matches!(missing, MemoryError::EntryNotFound { ref key } if key == "absent"));
}

#[test]
fn permanent_entry_carries_the_given_time() {
    let e = PermanentMemoryEntry::new_at("k", PermanentMemoryKind::Other, "v", MemoryPriority::Normal, 1_700_000_000);
    assert_eq!(e.updated_at_unix, 1_700_000_000);
    assert_eq!(e.revision, 1);
    assert!(e.source.is_none());
}

#[test]
fn permanent_listing_counts_successful_inserts() {
    let mut permanent: PermanentMemory<InMemoryPermanentBackend> = PermanentMemory::default();
    assert!(permanent.all().is_empty());
    let entry = |k: &str| PermanentMemoryEntry::new(k, PermanentMemoryKind::Other, "v", MemoryPriority::Normal);
    assert!(permanent.insert(entry("b")).is_ok());
    assert!(permanent.insert(entry("a")).is_ok());
    assert!(permanent.insert(entry("b")).is_err());
    assert!(permanent
        .update_safe(PermanentMemoryUpdate {
            key: "a".to_string(),
            new_value: "w".to_string(),
            new_priority: None,
            reason: "r".to_string(),
            expected_revision: None,
        })
        .is_ok());
    let keys: Vec<&str> = permanent.all().iter().map(|e| e.key.as_str()).collect();
    assert_eq!(keys, vec!["a", "b"]);
}
