use zhiforge_knowledge::semantic::{
    bounded, clean_optional, compact_candidate, escape_like, fts_expression, merge_candidates,
    normalize_query, result_limit, validate_expansion, validate_optional,
    validate_rerank_decisions, ExpansionOutput, RerankCandidate, RerankDecisionInput,
    SemanticCandidate, QUALITY_VALUES, STATUS_VALUES,
};
use zhiforge_knowledge::semantic::{
    begin_search, search_step, search_wf_holds, HitBasis, PlannedHit, SearchAction, SearchEvent, SearchStage,
    EXPAND_BELOW, MAX_CANDIDATES,
};

fn candidate(id: &str) -> SemanticCandidate {
    SemanticCandidate {
        id: id.into(),
        core_claim: format!("claim {id}"),
        selected_text: "text".into(),
        user_note: None,
        status: "learning".into(),
        quality_status: "unverified".into(),
        platform: "web".into(),
        title: None,
        author: None,
        mastery_score: 40,
        review_count: 1,
        concepts: vec![],
        topic_names: vec![],
        tag_names: vec![],
        local_match: true,
    }
}

fn rerank_candidate(id: &str) -> RerankCandidate {
    RerankCandidate {
        knowledge_id: id.into(),
        claim: "a".into(),
        excerpt: String::new(),
        note: String::new(),
        concepts: vec![],
        topics: vec![],
        tags: vec![],
        status: "learning".into(),
        quality: "unverified".into(),
        mastery: 40,
    }
}

#[test]
fn expansion_validator_normalizes_and_deduplicates_terms() {
    let output = validate_expansion(
        ExpansionOutput {
            terms: vec![
                " retry strategy ".into(),
                "Retry   Strategy".into(),
                "重试 退避".into(),
                "original".into(),
            ],
        },
        "original",
    )
    .unwrap();
    assert_eq!(output.terms, vec!["retry strategy", "重试 退避"]);
}

#[test]
fn expansion_keeps_at_most_six_and_rejects_too_many() {
    let terms: Vec<String> = (0..10).map(|i| format!("term {i}")).collect();
    let output = validate_expansion(ExpansionOutput { terms }, "query").unwrap();
    assert_eq!(output.terms.len(), 6);
    let too_many: Vec<String> = (0..13).map(|i| format!("t{i}")).collect();
    assert!(validate_expansion(ExpansionOutput { terms: too_many }, "query").is_err());
    let long = "x".repeat(81);
    let output = validate_expansion(ExpansionOutput { terms: vec![long, " ".into()] }, "q").unwrap();
    assert!(output.terms.is_empty());
}

#[test]
fn candidates_merge_by_id_first_wins() {
    let mut target = vec![candidate("k1")];
    let mut dup = candidate("k1");
    dup.core_claim = "other".into();
    merge_candidates(&mut target, vec![candidate("k2"), dup, candidate("k2"), candidate("k3")]);
    let ids: Vec<&str> = target.iter().map(|c| c.id.as_str()).collect();
    assert_eq!(ids, vec!["k1", "k2", "k3"]);
    assert_eq!(target[0].core_claim, "claim k1");
}

#[test]
fn compact_candidate_cuts_texts_and_lists() {
    let mut c = candidate("k1");
    c.core_claim = "x".repeat(400);
    c.user_note = Some("n".repeat(130));
    c.concepts = (0..20).map(|i| format!("c{i}")).collect();
    c.topic_names = vec!["t".into()];
    let r = compact_candidate(&c);
    assert_eq!(r.knowledge_id, "k1");
    assert_eq!(r.claim.chars().count(), 300);
    assert_eq!(r.note.chars().count(), 120);
    assert_eq!(r.concepts.len(), 12);
    assert_eq!(r.topics, vec!["t".to_string()]);
    assert_eq!(compact_candidate(&candidate("k2")).note, "");
}

#[test]
fn rerank_results_name_supplied_candidates_once() {
    let candidates = vec![rerank_candidate("k1"), rerank_candidate("k2")];
    let ok = validate_rerank_decisions(
        &vec![
            RerankDecisionInput { knowledge_id: " k2 ".into(), reason: "  ".into(), score_in_range: true },
            RerankDecisionInput { knowledge_id: "k1".into(), reason: "some".into(), score_in_range: true },
        ],
        2,
        &candidates,
    )
    .unwrap();
    assert_eq!(ok[0], ("k2".to_string(), "与查询语义相关".to_string()));
    assert_eq!(ok[1], ("k1".to_string(), "some".to_string()));
    let unknown = validate_rerank_decisions(
        &vec![RerankDecisionInput { knowledge_id: "missing".into(), reason: "x".into(), score_in_range: true }],
        2,
        &candidates,
    );
    assert_eq!(unknown.unwrap_err(), "semantic rerank referenced an unknown knowledge id");
    let repeated = validate_rerank_decisions(
        &vec![
            RerankDecisionInput { knowledge_id: "k1".into(), reason: "x".into(), score_in_range: true },
            RerankDecisionInput { knowledge_id: "k1 ".into(), reason: "y".into(), score_in_range: true },
        ],
        2,
        &candidates,
    );
    assert_eq!(repeated.unwrap_err(), "semantic rerank repeated a knowledge id");
    let score = validate_rerank_decisions(
        &vec![RerankDecisionInput { knowledge_id: "k1".into(), reason: "x".into(), score_in_range: false }],
        2,
        &candidates,
    );
    assert_eq!(score.unwrap_err(), "semantic rerank score must be between 0 and 1");
    let too_many = validate_rerank_decisions(
        &vec![
            RerankDecisionInput { knowledge_id: "k1".into(), reason: "x".into(), score_in_range: true },
            RerankDecisionInput { knowledge_id: "k2".into(), reason: "y".into(), score_in_range: true },
        ],
        1,
        &candidates,
    );
    assert_eq!(too_many.unwrap_err(), "semantic rerank returned too many results");
}

#[test]
fn query_and_filters_are_normalized() {
    assert_eq!(normalize_query("  retry \t jobs ").unwrap(), "retry jobs");
    assert_eq!(normalize_query("   ").unwrap_err(), "semantic search query is empty");
    assert_eq!(normalize_query(&"q".repeat(501)).unwrap_err(), "semantic search query is too long");
    assert_eq!(validate_optional(Some(" learning ".into()), &STATUS_VALUES, "knowledge status").unwrap(), Some("learning".to_string()));
    assert_eq!(validate_optional(Some("bogus".into()), &QUALITY_VALUES, "quality status").unwrap_err(), "unsupported quality status");
    assert_eq!(validate_optional(Some("  ".into()), &QUALITY_VALUES, "quality status").unwrap(), None);
    assert_eq!(clean_optional(None), None);
}

#[test]
fn search_text_helpers() {
    assert_eq!(escape_like("a_b"), "a\\_b");
    assert_eq!(fts_expression("a b"), "\"a\"* AND \"b\"*");
    assert_eq!(bounded(" abc", 2), " a");
    assert_eq!(result_limit(None), 12);
    assert_eq!(result_limit(Some(0)), 1);
    assert_eq!(result_limit(Some(50)), 20);
    assert_eq!(result_limit(Some(7)), 7);
}

fn candidates(prefix: &str, count: usize) -> Vec<SemanticCandidate> {
    (0..count).map(|i| candidate(&format!("{prefix}{i}"))).collect()
}

#[test]
fn search_with_few_matches_expands_widens_and_fills() {
    let (state, action) = begin_search("rust".into(), 5);
    assert_eq!(action, SearchAction::LoadMatching { term: "rust".into(), limit: MAX_CANDIDATES });
    let (state, action) = search_step(state, SearchEvent::Loaded(candidates("a", 3)));
    assert_eq!(action, SearchAction::ExpandQuery);
    assert_eq!(state.stage, SearchStage::Expanding);
    let terms = vec!["borrow".to_string(), "ownership".to_string()];
    let (state, action) = search_step(state, SearchEvent::Expanded(Some(terms)));
    assert_eq!(action, SearchAction::LoadMatching { term: "borrow".into(), limit: 37 });
    let mut extra = candidates("a", 2);
    extra.push(candidate("b0"));
    let (state, action) = search_step(state, SearchEvent::Loaded(extra));
    assert_eq!(state.candidates.len(), 4);
    assert_eq!(action, SearchAction::LoadMatching { term: "ownership".into(), limit: 36 });
    let (state, action) = search_step(state, SearchEvent::Loaded(vec![]));
    assert_eq!(action, SearchAction::LoadRecent { limit: 40 });
    let (state, action) = search_step(state, SearchEvent::Loaded(candidates("r", 50)));
    assert_eq!(state.candidates.len(), 40);
    assert_eq!(state.candidates[4].id, "r0");
    assert_eq!(action, SearchAction::Rerank { result_limit: 5 });
    assert_eq!(state.expanded_terms, vec!["borrow".to_string(), "ownership".to_string()]);
    let ids = vec!["r3".to_string(), "missing".to_string(), "a1".to_string()];
    let (state, action) = search_step(state, SearchEvent::Ranked(Some(ids)));
    assert_eq!(state.stage, SearchStage::Finished);
    assert_eq!(
        action,
        SearchAction::Finish {
            hits: vec![
                PlannedHit { candidate: 7, basis: HitBasis::Ranked(0) },
                PlannedHit { candidate: 1, basis: HitBasis::Ranked(2) },
            ]
        }
    );
}

#[test]
fn search_with_enough_matches_skips_expansion() {
    let (state, _) = begin_search("q".into(), 12);
    let (state, action) = search_step(state, SearchEvent::Loaded(candidates("a", EXPAND_BELOW)));
    assert_eq!(action, SearchAction::LoadRecent { limit: 40 });
    assert_eq!(state.stage, SearchStage::Filling);
    let (state, _) = begin_search("q".into(), 12);
    let (state, action) = search_step(state, SearchEvent::Loaded(candidates("a", 40)));
    assert_eq!(action, SearchAction::Rerank { result_limit: 12 });
    assert!(state.expanded_terms.is_empty());
}

#[test]
fn failed_expansion_goes_on_to_recent_knowledge() {
    let (state, _) = begin_search("q".into(), 3);
    let (state, _) = search_step(state, SearchEvent::Loaded(vec![]));
    let (state, action) = search_step(state, SearchEvent::Expanded(None));
    assert_eq!(action, SearchAction::LoadRecent { limit: 40 });
    let (_, action) = search_step(state, SearchEvent::Loaded(vec![]));
    assert_eq!(action, SearchAction::Finish { hits: vec![] });
}

#[test]
fn a_single_candidate_is_the_sole_hit() {
    let (state, _) = begin_search("q".into(), 3);
    let (state, _) = search_step(state, SearchEvent::Loaded(vec![]));
    let (state, _) = search_step(state, SearchEvent::Expanded(Some(vec![])));
    let mut recent = candidates("r", 1);
    recent[0].local_match = false;
    let (state, action) = search_step(state, SearchEvent::Loaded(recent));
    assert_eq!(
        action,
        SearchAction::Finish { hits: vec![PlannedHit { candidate: 0, basis: HitBasis::Sole }] }
    );
    assert!(!state.candidates[0].local_match);
}

#[test]
fn failed_rerank_keeps_local_matches_in_order_up_to_the_limit() {
    let (state, _) = begin_search("q".into(), 2);
    let mut found = candidates("a", 12);
    found[0].local_match = false;
    found[2].local_match = false;
    let (state, _) = search_step(state, SearchEvent::Loaded(found));
    let (state, action) = search_step(state, SearchEvent::Loaded(candidates("a", 40)));
    assert_eq!(state.candidates.len(), 40);
    assert_eq!(action, SearchAction::Rerank { result_limit: 2 });
    let (_, action) = search_step(state, SearchEvent::Ranked(None));
    assert_eq!(
        action,
        SearchAction::Finish {
            hits: vec![
                PlannedHit { candidate: 1, basis: HitBasis::Local(0) },
                PlannedHit { candidate: 3, basis: HitBasis::Local(1) },
            ]
        }
    );
}

#[test]
fn an_event_out_of_turn_changes_nothing() {
    let (state, _) = begin_search("q".into(), 2);
    assert!(search_wf_holds(&state));
    let (state, action) = search_step(state, SearchEvent::Ranked(None));
    assert_eq!(action, SearchAction::Idle);
    assert_eq!(state.stage, SearchStage::Matching);
}

use zhiforge_knowledge::semantic::select_expansion_terms;

#[test]
fn keyed_expansion_drops_the_query_key_repeats_and_overflow() {
    let terms: Vec<String> =
        vec!["Retry", "retry", "Backoff", "  jitter   delay ", "", "q"].into_iter().map(String::from).collect();
    let keys: Vec<String> =
        vec!["retry", "retry", "backoff", "jitter delay", "", "query"].into_iter().map(String::from).collect();
    let kept = select_expansion_terms(&terms, &keys, &"query".to_string());
    assert_eq!(kept, vec!["Retry".to_string(), "Backoff".to_string(), "jitter delay".to_string()]);
}
