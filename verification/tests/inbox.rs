use zhiforge_knowledge::inbox::{
    check_draft_edit, concept_like_patterns, draft_correctable, draft_fts_expression,
    draft_relation, escape_like, evidence_offsets, inbox_select, normalize_edit_strings,
    validate_analysis_decisions, DraftDecisionInput,
};

fn decision(draft: &str, existing: &str, classification: &str, in_range: bool) -> DraftDecisionInput {
    DraftDecisionInput {
        draft_id: draft.into(),
        existing_id: existing.into(),
        classification: classification.into(),
        rationale: " Adds an important limitation ".into(),
        confidence_in_range: in_range,
    }
}

#[test]
fn draft_candidate_retrieval_and_validator_are_bounded_to_supplied_pairs() {
    assert!(!draft_fts_expression("Alpha claim", &vec!["concept".to_string()]).is_empty());
    let pairs = vec![("d1".to_string(), "k-old".to_string())];
    let validated = validate_analysis_decisions(&vec![decision("d1", "k-old", " supplement ", true)], &pairs).unwrap();
    assert_eq!(validated[0].classification, "supplement");
    assert_eq!(validated[0].relation_type.as_deref(), Some("extends"));
    assert_eq!(validated[0].rationale, "Adds an important limitation");
    let unknown = validate_analysis_decisions(&vec![decision("d1", "missing", "duplicate", true)], &pairs);
    assert_eq!(unknown.unwrap_err(), "draft analysis referenced an unknown candidate pair");
    let repeated = validate_analysis_decisions(
        &vec![decision("d1", "k-old", "conflict", true), decision(" d1", "k-old ", "bogus", false)],
        &pairs,
    )
    .unwrap();
    assert_eq!(repeated.len(), 1);
    assert_eq!(repeated[0].relation_type.as_deref(), Some("contradicts"));
    assert!(validate_analysis_decisions(&vec![decision("d1", "k-old", "new", false)], &pairs).is_err());
    assert!(validate_analysis_decisions(&vec![decision("d1", "k-old", "bogus", true)], &pairs).is_err());
}

#[test]
fn draft_evidence_offsets_are_character_positions() {
    assert_eq!(evidence_offsets("前缀 alpha beta", " alpha ").unwrap(), (3, 8));
    assert_eq!(evidence_offsets("abc", "  ").unwrap_err(), "draft evidence quote is empty");
    assert_eq!(evidence_offsets("abc", "x").unwrap_err(), "draft evidence is not an exact source quote");
}

#[test]
fn draft_search_uses_concepts_then_claim_words() {
    assert_eq!(
        draft_fts_expression("alpha beta (gamma) a", &vec!["Alpha".into(), " x ".into()]),
        "\"Alpha\"* OR \"beta\"* OR \"gamma\"*"
    );
    assert_eq!(draft_fts_expression("知识", &vec![]), "\"知识\"*");
    assert_eq!(draft_fts_expression("a", &vec![]), "");
}

#[test]
fn draft_corrections_are_checked() {
    assert_eq!(check_draft_edit(" d1 ", " claim ", " Duplicate ").unwrap(), ("d1".to_string(), "claim".to_string(), "duplicate".to_string()));
    assert_eq!(check_draft_edit(" ", "c", "new").unwrap_err(), "draft id is empty");
    assert_eq!(check_draft_edit("d", " ", "new").unwrap_err(), "draft core claim is empty or too long");
    assert_eq!(check_draft_edit("d", "c", "merge").unwrap_err(), "unsupported draft classification");
    assert!(draft_correctable("ready", "pending"));
    assert!(!draft_correctable("ignored", "pending"));
    assert_eq!(draft_relation("new", Some("k".into())).unwrap(), (None, None));
    assert_eq!(draft_relation("conflict", Some(" k ".into())).unwrap(), (Some("k".to_string()), Some("contradicts".to_string())));
    assert_eq!(draft_relation("supplement", Some(" ".into())).unwrap_err(), "supplement draft requires related knowledge");
}

#[test]
fn inbox_helpers() {
    assert!(inbox_select().starts_with("SELECT"));
    assert!(inbox_select().contains("FROM inbox_items i"));
    assert_eq!(escape_like("a%"), "a\\%");
    assert_eq!(normalize_edit_strings(vec![" a ".into(), "a".into(), "bb".into()], 5, 1), vec!["a".to_string()]);
    assert_eq!(concept_like_patterns(&vec![" ab ".into(), "c".into(), "d_e".into()]), vec!["%ab%".to_string(), "%d\\_e%".to_string()]);
}

use zhiforge_knowledge::inbox::{plan_acceptance, selected_draft_ids, AcceptDraft, AcceptStep};

fn draft(id: &str, classification: &str, related: Option<&str>) -> AcceptDraft {
    AcceptDraft {
        id: id.into(),
        classification: classification.into(),
        related_knowledge_id: related.map(|r| r.to_string()),
    }
}

fn ids(values: &[&str]) -> Vec<String> {
    values.iter().map(|v| v.to_string()).collect()
}

#[test]
fn selected_draft_ids_trim_and_drop_repeats() {
    assert_eq!(
        selected_draft_ids(ids(&[" d1 ", "", "d2", "d1", "  "])).unwrap(),
        ids(&["d1", "d2"])
    );
    assert_eq!(
        selected_draft_ids(ids(&[" ", ""])).unwrap_err(),
        "select at least one draft to accept"
    );
}

#[test]
fn acceptance_gives_the_anchor_to_the_first_new_knowledge() {
    let drafts = vec![
        draft("d1", "duplicate", Some("k-old")),
        draft("d2", "new", None),
        draft("d3", "conflict", Some("k-other")),
        draft("d4", "supplement", Some("k-old")),
        draft("d5", "duplicate", Some("k-old")),
        draft("d6", "new", None),
    ];
    let plan = plan_acceptance("ready", &drafts, &ids(&["d5", "d1", "d2", "d3", "d4"])).unwrap();
    assert_eq!(plan.steps.len(), 5);
    match &plan.steps[0] {
        AcceptStep::Duplicate { draft_id, target_id } => {
            assert_eq!(draft_id, "d1");
            assert_eq!(target_id, "k-old");
        }
        other => panic!("unexpected step {other:?}"),
    }
    match &plan.steps[1] {
        AcceptStep::Promote { draft_id, use_anchor, relation } => {
            assert_eq!(draft_id, "d2");
            assert!(*use_anchor);
            assert!(relation.is_none());
        }
        other => panic!("unexpected step {other:?}"),
    }
    match &plan.steps[2] {
        AcceptStep::Promote { draft_id, use_anchor, relation } => {
            assert_eq!(draft_id, "d3");
            assert!(!*use_anchor);
            assert_eq!(relation, &Some(("k-other".to_string(), "contradicts".to_string())));
        }
        other => panic!("unexpected step {other:?}"),
    }
    match &plan.steps[3] {
        AcceptStep::Promote { use_anchor, relation, .. } => {
            assert!(!*use_anchor);
            assert_eq!(relation, &Some(("k-old".to_string(), "extends".to_string())));
        }
        other => panic!("unexpected step {other:?}"),
    }
    assert!(matches!(&plan.steps[4], AcceptStep::Duplicate { draft_id, .. } if draft_id == "d5"));
    assert_eq!(plan.updated_knowledge_ids, ids(&["k-old"]));
}

#[test]
fn acceptance_errors_name_the_failing_rule() {
    let drafts = vec![draft("d1", "new", None), draft("d2", "supplement", None)];
    assert_eq!(
        plan_acceptance("analyzing", &drafts, &ids(&["d1"])).unwrap_err(),
        "inbox item is not ready for acceptance"
    );
    assert_eq!(
        plan_acceptance("ready", &drafts, &ids(&["d1", "d9"])).unwrap_err(),
        "one or more selected drafts do not belong to this inbox item"
    );
    assert_eq!(
        plan_acceptance("ready", &drafts, &ids(&[])).unwrap_err(),
        "no drafts selected for acceptance"
    );
    assert_eq!(
        plan_acceptance("ready", &drafts, &ids(&["d1", "d2"])).unwrap_err(),
        "supplement draft is missing related knowledge"
    );
    let duplicate = vec![draft("d1", "duplicate", None)];
    assert_eq!(
        plan_acceptance("ready", &duplicate, &ids(&["d1"])).unwrap_err(),
        "duplicate draft is missing related knowledge"
    );
}

use zhiforge_knowledge::inbox::{required_inbox_id, restored_state};

#[test]
fn ignored_items_return_to_where_they_were() {
    assert_eq!(restored_state(2), ("ready", "awaiting_review"));
    assert_eq!(restored_state(0), ("captured", "captured"));
    assert_eq!(required_inbox_id("  i-1 ").unwrap(), "i-1");
    assert_eq!(required_inbox_id("   ").unwrap_err(), "inbox id is empty");
}

fn new_drafts() -> Vec<AcceptDraft> {
    vec![draft("d1", "new", None), draft("d2", "new", None), draft("d3", "new", None)]
}

#[test]
fn acceptance_promotes_selected_drafts_and_ignores_unselected() {
    let plan = plan_acceptance("ready", &new_drafts(), &ids(&["d1", "d3"])).unwrap();
    assert_eq!(plan.steps.len(), 2);
    assert!(plan.updated_knowledge_ids.is_empty());
    match (&plan.steps[0], &plan.steps[1]) {
        (
            AcceptStep::Promote { draft_id: first, use_anchor: true, relation: None },
            AcceptStep::Promote { draft_id: second, use_anchor: false, relation: None },
        ) => {
            assert_eq!(first, "d1");
            assert_eq!(second, "d3");
        }
        other => panic!("unexpected steps {other:?}"),
    }
}

#[test]
fn duplicate_acceptance_merges_evidence_without_creating_knowledge() {
    let mut drafts = new_drafts();
    drafts[0] = draft("d1", "duplicate", Some("k-old"));
    let plan = plan_acceptance("ready", &drafts, &ids(&["d1"])).unwrap();
    assert_eq!(plan.updated_knowledge_ids, ids(&["k-old"]));
    assert_eq!(plan.steps.len(), 1);
    assert!(matches!(
        &plan.steps[0],
        AcceptStep::Duplicate { draft_id, target_id } if draft_id == "d1" && target_id == "k-old"
    ));
    assert!(!plan.steps.iter().any(|s| matches!(s, AcceptStep::Promote { .. })));
}

#[test]
fn conflict_acceptance_keeps_both_claims_and_links_conflicting_evidence() {
    let mut drafts = new_drafts();
    drafts[0] = draft("d1", "conflict", Some("k-old"));
    let plan = plan_acceptance("ready", &drafts, &ids(&["d1"])).unwrap();
    assert!(plan.updated_knowledge_ids.is_empty());
    match &plan.steps[..] {
        [AcceptStep::Promote { draft_id, use_anchor: true, relation: Some((target, kind)) }] => {
            assert_eq!(draft_id, "d1");
            assert_eq!(target, "k-old");
            assert_eq!(kind, "contradicts");
        }
        other => panic!("unexpected steps {other:?}"),
    }
}

#[test]
fn acceptance_rolls_back_when_draft_evidence_is_not_grounded() {
    assert!(evidence_offsets("alpha evidence", "invented evidence").is_err());
    assert_eq!(evidence_offsets("xx alpha evidence", " alpha evidence ").unwrap(), (3, 17));
}

#[test]
fn draft_manual_correction_updates_relation_without_touching_evidence() {
    let (id, claim, classification) = check_draft_edit("d1", " Corrected alpha claim ", " conflict ").unwrap();
    assert_eq!(id, "d1");
    assert_eq!(claim, "Corrected alpha claim");
    assert_eq!(classification, "conflict");
    let concepts = normalize_edit_strings(
        vec!["network".into(), "network".into(), "  protocol  ".into(), "".into()],
        24,
        160,
    );
    assert_eq!(concepts, vec!["network".to_string(), "protocol".to_string()]);
    let (related, relation) = draft_relation(&classification, Some("k-old".into())).unwrap();
    assert_eq!(related.as_deref(), Some("k-old"));
    assert_eq!(relation.as_deref(), Some("contradicts"));
}

#[test]
fn draft_manual_correction_requires_related_target_for_non_new() {
    let (_, _, classification) = check_draft_edit("d1", "Alpha claim", "duplicate").unwrap();
    assert!(draft_relation(&classification, None).unwrap_err().contains("requires related knowledge"));
}

#[test]
fn ignored_inbox_restore_preserves_pending_drafts_and_returns_ready() {
    assert_eq!(restored_state(3), ("ready", "awaiting_review"));
}

#[test]
fn ignored_inbox_restore_without_pending_drafts_returns_to_captured() {
    assert_eq!(restored_state(0), ("captured", "captured"));
}
