use zhiforge_knowledge::curation::{
    add_pair, bounded_text, candidate_fts_expression, canonical_pair, pair_key, required_id,
    CurationKnowledge, CurationPair,
};

fn knowledge(id: &str) -> CurationKnowledge {
    CurationKnowledge {
        id: id.into(),
        claim: format!("claim {id}"),
        concepts: vec![],
        quality: "unverified".into(),
    }
}

#[test]
fn fts_expression_prefers_structured_concepts() {
    let item = CurationKnowledge {
        id: "k1".into(),
        claim: "ignored claim words".into(),
        concepts: vec!["Agent Retry".into(), "Failure".into()],
        quality: "unverified".into(),
    };
    assert_eq!(candidate_fts_expression(&item), "\"Agent Retry\"* OR \"Failure\"*");
}

#[test]
fn fts_expression_falls_back_to_claim_words() {
    let item = CurationKnowledge {
        id: "k1".into(),
        claim: "a (retry) failed \"jobs\" quickly now".into(),
        concepts: vec!["  ".into()],
        quality: "unverified".into(),
    };
    assert_eq!(
        candidate_fts_expression(&item),
        "\"retry\"* OR \"failed\"* OR \"jobs\"* OR \"quickly\"*"
    );
}

#[test]
fn concepts_are_deduplicated_ignoring_ascii_case() {
    let item = CurationKnowledge {
        id: "k1".into(),
        claim: String::new(),
        concepts: vec!["Retry".into(), "retry".into(), " Backoff ".into()],
        quality: "unverified".into(),
    };
    assert_eq!(candidate_fts_expression(&item), "\"Retry\"* OR \"Backoff\"*");
}

#[test]
fn pair_key_is_symmetric() {
    assert_eq!(pair_key("k2", "k1"), pair_key("k1", "k2"));
    assert_eq!(pair_key("k1", "k2"), "k1\u{1f}k2");
    assert_eq!(canonical_pair("b", "a"), ("a".to_string(), "b".to_string()));
}

#[test]
fn pairs_are_added_once_smaller_id_first() {
    let mut pairs: Vec<CurationPair> = Vec::new();
    let mut seen: Vec<String> = Vec::new();
    add_pair(&knowledge("k2"), &knowledge("k1"), &mut seen, &mut pairs);
    add_pair(&knowledge("k1"), &knowledge("k2"), &mut seen, &mut pairs);
    add_pair(&knowledge("k3"), &knowledge("k3"), &mut seen, &mut pairs);
    assert_eq!(pairs.len(), 1);
    assert_eq!(pairs[0].left.id, "k1");
    assert_eq!(pairs[0].right.id, "k2");
}

#[test]
fn curation_ids_and_texts_are_checked() {
    assert_eq!(required_id(" k1 ", "knowledge").unwrap(), "k1");
    assert_eq!(required_id("  ", "knowledge").unwrap_err(), "knowledge id is empty");
    assert_eq!(bounded_text("  abcdef ", 3), "abc");
}

use zhiforge_knowledge::curation::{validate_decisions, CurationDecisionInput};
use zhiforge_knowledge::librarian::ConfidenceLevel;

fn sample_pairs() -> Vec<CurationPair> {
    vec![CurationPair {
        left: CurationKnowledge {
            id: "k1".into(),
            claim: "Agents should classify failures before retrying".into(),
            concepts: vec!["retry".into()],
            quality: "unverified".into(),
        },
        right: CurationKnowledge {
            id: "k2".into(),
            claim: "Tool errors should be classified before another call".into(),
            concepts: vec!["retry".into()],
            quality: "unverified".into(),
        },
    }]
}

/// Grades a confidence as the curation judge does: 0..=1, at least 0.72.
fn grade(confidence: f64) -> ConfidenceLevel {
    if !confidence.is_finite() || !(0.0..=1.0).contains(&confidence) {
        ConfidenceLevel::OutOfRange
    } else if confidence < 0.72 {
        ConfidenceLevel::Low
    } else {
        ConfidenceLevel::Sufficient
    }
}

fn decision(left: &str, right: &str, classification: &str, relation_type: Option<&str>, confidence: f64) -> CurationDecisionInput {
    CurationDecisionInput {
        left_id: left.into(),
        right_id: right.into(),
        classification: classification.into(),
        relation_type: relation_type.map(|s| s.to_string()),
        rationale: "because".into(),
        confidence: grade(confidence),
    }
}

#[test]
fn validator_keeps_actionable_and_drops_new_or_low_confidence() {
    let new_value = vec![decision("k1", "k2", "new", None, 0.99)];
    assert!(validate_decisions(&new_value, &sample_pairs()).unwrap().is_empty());
    let low_value = vec![decision("k1", "k2", "duplicate", None, 0.5)];
    assert!(validate_decisions(&low_value, &sample_pairs()).unwrap().is_empty());
}

#[test]
fn validator_normalizes_conflict_and_rejects_unknown_pair() {
    let conflict = vec![decision("k2", "k1", "conflict", None, 0.91)];
    let output = validate_decisions(&conflict, &sample_pairs()).unwrap();
    assert_eq!(output.len(), 1);
    assert_eq!(output[0].left_id, "k1");
    assert_eq!(output[0].right_id, "k2");
    assert_eq!(output[0].relation_type.as_deref(), Some("contradicts"));

    let unknown = vec![decision("k1", "missing", "duplicate", None, 0.9)];
    assert!(validate_decisions(&unknown, &sample_pairs()).is_err());
}

#[test]
fn related_decisions_default_and_check_their_type() {
    let related = vec![decision(" k1 ", "k2", " Related ", None, 0.9)];
    let output = validate_decisions(&related, &sample_pairs()).unwrap();
    assert_eq!(output[0].classification, "related");
    assert_eq!(output[0].relation_type.as_deref(), Some("related_to"));
    let bad = vec![decision("k1", "k2", "related", Some("contradicts"), 0.9)];
    assert_eq!(validate_decisions(&bad, &sample_pairs()).unwrap_err(), "curation returned an unsupported related relation type");
    let odd = vec![decision("k1", "k2", "maybe", None, 0.9)];
    assert_eq!(validate_decisions(&odd, &sample_pairs()).unwrap_err(), "curation returned an unsupported classification");
    let range = vec![decision("k1", "k2", "duplicate", None, 2.0)];
    assert_eq!(validate_decisions(&range, &sample_pairs()).unwrap_err(), "curation confidence must be between 0 and 1");
    let two = vec![decision("k1", "k2", "duplicate", None, 0.9), decision("k2", "k1", "conflict", None, 0.9)];
    assert_eq!(validate_decisions(&two, &sample_pairs()).unwrap_err(), "curation returned more decisions than supplied pairs");
}

use zhiforge_knowledge::curation::add_candidate_pairs;

#[test]
fn candidate_pairs_skip_unknown_neighbours_and_repeats() {
    let library = vec![knowledge("k1"), knowledge("k2"), knowledge("k3")];
    let mut seen = Vec::new();
    let mut pairs = Vec::new();
    let full = add_candidate_pairs(
        &library[1],
        &vec!["k9".to_string(), "k1".to_string(), "k2".to_string(), "k1".to_string(), "k3".to_string()],
        &library,
        &mut seen,
        &mut pairs,
    );
    assert!(!full);
    assert_eq!(pairs.len(), 2);
    assert_eq!((pairs[0].left.id.as_str(), pairs[0].right.id.as_str()), ("k1", "k2"));
    assert_eq!((pairs[1].left.id.as_str(), pairs[1].right.id.as_str()), ("k2", "k3"));
    assert_eq!(seen.len(), 2);
}

#[test]
fn candidate_pairs_stop_at_the_limit() {
    let library: Vec<CurationKnowledge> = (0..30).map(|i| knowledge(&format!("k{i:02}"))).collect();
    let neighbours: Vec<String> = library.iter().map(|k| k.id.clone()).collect();
    let mut seen = Vec::new();
    let mut pairs = Vec::new();
    let full = add_candidate_pairs(&library[0], &neighbours, &library, &mut seen, &mut pairs);
    assert!(full);
    assert_eq!(pairs.len(), 24);
    assert_eq!(pairs[23].right.id, "k24");
}

use zhiforge_knowledge::curation::{candidate_decision, curation_effect, CurationEffect};

#[test]
fn candidate_decisions_are_idempotent_and_final() {
    assert_eq!(candidate_decision("pending", "applied"), Ok(false));
    assert_eq!(candidate_decision("applied", "applied"), Ok(true));
    assert_eq!(candidate_decision("dismissed", "dismissed"), Ok(true));
    assert_eq!(
        candidate_decision("dismissed", "applied").unwrap_err(),
        "curation candidate is no longer pending"
    );
    assert_eq!(curation_effect(false, "duplicate"), Ok(CurationEffect::MarkStale));
    assert_eq!(curation_effect(true, "duplicate"), Ok(CurationEffect::ConfirmDuplicate));
    assert_eq!(curation_effect(true, "related"), Ok(CurationEffect::LinkRelated));
    assert_eq!(curation_effect(true, "conflict"), Ok(CurationEffect::RecordConflict));
    assert_eq!(curation_effect(true, "other").unwrap_err(), "unsupported curation classification");
}
