use zhiforge_knowledge::librarian::{
    bounded_text, is_symmetric_relation, normalize_name, normalize_rationale, proposal_identity,
    relation_key, relation_label, require_known_id, required_id, validate_proposals,
    CatalogKnowledge, CatalogRelation, ConfidenceLevel, LibrarianCatalog, ProposalAction,
    ProposalInput,
};

fn catalog() -> LibrarianCatalog {
    LibrarianCatalog {
        knowledge: vec![
            CatalogKnowledge {
                id: "k1".into(),
                claim: "A supports B".into(),
                concepts: vec!["A".into()],
                topics: vec!["已有主题".into()],
                tags: vec!["旧标签".into()],
            },
            CatalogKnowledge {
                id: "k2".into(),
                claim: "B detail".into(),
                concepts: vec!["B".into()],
                topics: vec![],
                tags: vec![],
            },
        ],
        existing_topics: vec!["已有主题".into()],
        existing_tags: vec!["旧标签".into()],
        existing_relations: vec![],
    }
}

/// Grades a confidence as the librarian does: 0..=1, at least 0.65.
fn grade(confidence: f64) -> ConfidenceLevel {
    if !confidence.is_finite() || !(0.0..=1.0).contains(&confidence) {
        ConfidenceLevel::OutOfRange
    } else if confidence < 0.65 {
        ConfidenceLevel::Low
    } else {
        ConfidenceLevel::Sufficient
    }
}

fn tag(knowledge_id: &str, name: &str, rationale: &str, confidence: f64) -> ProposalInput {
    ProposalInput {
        action: ProposalAction::TagAdd {
            knowledge_id: knowledge_id.into(),
            tag_name: name.into(),
            rationale: rationale.into(),
        },
        confidence: grade(confidence),
    }
}

fn topic(knowledge_id: &str, name: &str, rationale: &str, confidence: f64) -> ProposalInput {
    ProposalInput {
        action: ProposalAction::TopicAssign {
            knowledge_id: knowledge_id.into(),
            topic_name: name.into(),
            rationale: rationale.into(),
        },
        confidence: grade(confidence),
    }
}

fn relation(source: &str, target: &str, relation_type: &str, rationale: &str, confidence: f64) -> ProposalInput {
    ProposalInput {
        action: ProposalAction::RelationCreate {
            source_id: source.into(),
            target_id: target.into(),
            relation_type: relation_type.into(),
            rationale: rationale.into(),
        },
        confidence: grade(confidence),
    }
}

#[test]
fn validator_rejects_unknown_ids() {
    let proposals = vec![tag("missing", "test", "why", 0.9)];
    assert!(validate_proposals(&proposals, &catalog()).unwrap_err().contains("unknown knowledge id"));
}

#[test]
fn validator_filters_existing_and_low_confidence_suggestions() {
    let proposals = vec![
        topic("k1", "已有主题", "same", 0.9),
        tag("k2", "新标签", "weak", 0.4),
        relation("k1", "k2", "supports", "clear", 0.9),
    ];
    let output = validate_proposals(&proposals, &catalog()).unwrap();
    assert_eq!(output.len(), 1);
    assert!(matches!(output[0].action, ProposalAction::RelationCreate { .. }));
    assert_eq!(output[0].index, 2);
}

#[test]
fn validator_deduplicates_same_semantic_action() {
    let proposals = vec![
        tag("k2", "Agent", "first", 0.91),
        tag("k2", "agent", "second", 0.82),
        relation("k1", "k2", "related_to", "a", 0.9),
        relation("k2", "k1", "related_to", "b", 0.88),
    ];
    let output = validate_proposals(&proposals, &catalog()).unwrap();
    assert_eq!(output.len(), 2);
}

#[test]
fn validator_errors_name_each_rule() {
    let c = catalog();
    assert_eq!(validate_proposals(&vec![relation("k1", "k1", "supports", "x", 0.9)], &c).unwrap_err(), "relation endpoints must differ");
    assert_eq!(validate_proposals(&vec![tag("k1", "t", "x", 1.5)], &c).unwrap_err(), "proposal confidence must be between 0 and 1");
    assert_eq!(validate_proposals(&vec![relation("k1", "k2", " Similar ", "x", 0.9)], &c).unwrap_err(), "unsupported relation type 'similar'");
    assert_eq!(validate_proposals(&vec![tag("k1", "  ", "x", 0.9)], &c).unwrap_err(), "proposal name is empty");
    assert_eq!(validate_proposals(&vec![tag("k1", "t", " ", 0.9)], &c).unwrap_err(), "proposal rationale is empty");
    let many: Vec<ProposalInput> = (0..25).map(|_| tag("k1", "t", "x", 0.9)).collect();
    assert_eq!(validate_proposals(&many, &c).unwrap_err(), "librarian returned more than 24 proposals");
    assert_eq!(require_known_id(&vec!["k1".to_string()], &"k9".to_string()).unwrap_err(), "proposal references unknown knowledge id 'k9'");
}

#[test]
fn existing_relations_are_not_proposed_again() {
    let mut c = catalog();
    c.existing_relations.push(CatalogRelation { source_id: "k2".into(), target_id: "k1".into(), relation_type: "contradicts".into() });
    c.existing_relations.push(CatalogRelation { source_id: "k2".into(), target_id: "k1".into(), relation_type: "supports".into() });
    let proposals = vec![
        relation("k1", "k2", "contradicts", "x", 0.9),
        relation("k1", "k2", "SUPPORTS", "y", 0.9),
    ];
    let output = validate_proposals(&proposals, &c).unwrap();
    assert_eq!(output.len(), 1);
    match &output[0].action {
        ProposalAction::RelationCreate { relation_type, rationale, .. } => {
            assert_eq!(relation_type, "supports");
            assert_eq!(rationale, "y");
        }
        _ => panic!("expected a relation"),
    }
}

#[test]
fn names_and_rationales_are_normalized() {
    let output = validate_proposals(&vec![topic("k2", "  Agent   Memory ", "  because  ", 0.8)], &catalog()).unwrap();
    match &output[0].action {
        ProposalAction::TopicAssign { topic_name, rationale, .. } => {
            assert_eq!(topic_name, "Agent Memory");
            assert_eq!(rationale, "because");
        }
        _ => panic!("expected a topic"),
    }
}

#[test]
fn relation_helpers() {
    assert_eq!(relation_key("a", "b", "supports"), "a\u{1f}b\u{1f}supports");
    assert!(is_symmetric_relation("related_to"));
    assert!(!is_symmetric_relation("supports"));
    assert_eq!(relation_label("contradicts"), "冲突");
    assert_eq!(relation_label("whatever"), "相关");
    assert_eq!(
        proposal_identity(&ProposalAction::RelationCreate { source_id: "k2".into(), target_id: "k1".into(), relation_type: "related_to".into(), rationale: String::new() }),
        "relation\u{1f}k1\u{1f}k2\u{1f}related_to"
    );
    assert_eq!(
        proposal_identity(&ProposalAction::TagAdd { knowledge_id: "k1".into(), tag_name: "ÄB".into(), rationale: String::new() }),
        "tag\u{1f}k1\u{1f}äb"
    );
    assert_eq!(normalize_name("a  b", 3).unwrap(), "a b");
    assert_eq!(normalize_name("abcd", 3).unwrap_err(), "proposal name is too long");
    assert_eq!(normalize_rationale(&"r".repeat(501)).unwrap_err(), "proposal rationale is too long");
    assert_eq!(required_id(" ", "run").unwrap_err(), "invalid run id");
    assert_eq!(bounded_text(" abc ", 2), "ab");
}

use zhiforge_knowledge::librarian::{apply_kind, proposal_decision, ApplyKind};

#[test]
fn proposal_decisions_are_idempotent_and_final() {
    assert_eq!(proposal_decision("pending", "dismissed"), Ok(false));
    assert_eq!(proposal_decision("applied", "applied"), Ok(true));
    assert_eq!(
        proposal_decision("stale", "applied").unwrap_err(),
        "librarian proposal is no longer pending"
    );
    assert_eq!(apply_kind("topic_assign"), Ok(ApplyKind::TopicAssign));
    assert_eq!(apply_kind("tag_add"), Ok(ApplyKind::TagAdd));
    assert_eq!(apply_kind("relation_create"), Ok(ApplyKind::RelationCreate));
    assert_eq!(apply_kind("merge").unwrap_err(), "unsupported librarian action");
}

use zhiforge_knowledge::librarian::naming_identity;

#[test]
fn naming_identity_joins_kind_knowledge_and_key() {
    assert_eq!(naming_identity("topic", "k1", "rust"), "topic\u{1f}k1\u{1f}rust");
    assert_ne!(naming_identity("topic", "k1", "rust"), naming_identity("tag", "k1", "rust"));
}
