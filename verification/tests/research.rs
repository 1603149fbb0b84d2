use zhiforge_knowledge::research::{
    bounded, escape_like, normalize_topic, required_id, research_fts_expression,
    validate_research_output, ResearchGapOutput, ResearchInput, ResearchKnowledgeInput,
    ResearchOutput,
};

fn gap(title: &str, priority: &str, query: &str, related: Vec<String>) -> ResearchGapOutput {
    ResearchGapOutput {
        title: title.into(),
        rationale: format!("Why {title} matters."),
        priority: priority.into(),
        search_query: query.into(),
        related_knowledge_ids: related,
    }
}

fn output() -> ResearchOutput {
    ResearchOutput {
        summary: "Coverage exists but several questions remain.".into(),
        coverage_score: 42,
        gaps: vec![
            ResearchGapOutput { title: "Failure modes".into(), rationale: "Current claim does not cover failure handling.".into(), priority: "high".into(), search_query: "Agent memory failure modes".into(), related_knowledge_ids: vec!["k1".into()] },
            ResearchGapOutput { title: "Evaluation".into(), rationale: "No evaluation knowledge is present.".into(), priority: "medium".into(), search_query: "Agent memory evaluation".into(), related_knowledge_ids: vec!["k1".into()] },
            ResearchGapOutput { title: "Operational boundaries".into(), rationale: "Current knowledge does not define operating boundaries.".into(), priority: "low".into(), search_query: "Agent memory boundaries".into(), related_knowledge_ids: vec![] },
        ],
    }
}

fn knowledge() -> Vec<ResearchKnowledgeInput> {
    vec![ResearchKnowledgeInput { id: "k1".into(), claim: "Claim".into(), concepts: vec![], mastery_score: 60, quality_status: "unverified".into() }]
}

#[test]
fn validator_rejects_unknown_ids_and_normalizes_priority_order() {
    let input_knowledge = knowledge();
    let input = ResearchInput { topic: "Agent memory", existing_knowledge: &input_knowledge };
    let mut valid = output();
    valid.gaps[0].priority = " HIGH ".into();
    let valid = validate_research_output(valid, &input).unwrap();
    assert_eq!(valid.gaps[0].priority, "high");

    let mut invalid = output();
    invalid.gaps[0].related_knowledge_ids = vec!["missing".into()];
    let normalized = validate_research_output(invalid, &input).unwrap();
    assert!(normalized.gaps[0].related_knowledge_ids.is_empty());
}

#[test]
fn gaps_are_ordered_high_medium_low_keeping_order_within_a_priority() {
    let input_knowledge = knowledge();
    let input = ResearchInput { topic: "Agent memory", existing_knowledge: &input_knowledge };
    let plan = ResearchOutput {
        summary: "  s  ".into(),
        coverage_score: 0,
        gaps: vec![
            gap("Low one", "low", "query low one", vec![]),
            gap("High one", "high", "query high one", vec![]),
            gap("Medium one", "Medium", "query medium one", vec![]),
            gap("High two", "high", "query high two", vec![" k1 ".into(), "k1".into()]),
        ],
    };
    let r = validate_research_output(plan, &input).unwrap();
    let titles: Vec<&str> = r.gaps.iter().map(|g| g.title.as_str()).collect();
    assert_eq!(titles, vec!["High one", "High two", "Medium one", "Low one"]);
    assert_eq!(r.gaps[1].related_knowledge_ids, vec!["k1".to_string()]);
    assert_eq!(r.summary, "s");
    assert_eq!(r.gaps.len(), 4);
}

#[test]
fn plan_errors_cover_each_rule() {
    let input_knowledge = knowledge();
    let input = ResearchInput { topic: "Agent memory", existing_knowledge: &input_knowledge };
    let mut p = output();
    p.summary = "   ".into();
    assert_eq!(validate_research_output(p, &input).unwrap_err(), "research plan summary is empty");
    let mut p = output();
    p.coverage_score = 101;
    assert_eq!(validate_research_output(p, &input).unwrap_err(), "research coverage score must be between 0 and 100");
    let mut p = output();
    p.gaps.truncate(2);
    assert_eq!(validate_research_output(p, &input).unwrap_err(), "research plan must contain 3 to 6 gaps");
    let mut p = output();
    p.gaps[1].priority = "urgent".into();
    assert_eq!(validate_research_output(p, &input).unwrap_err(), "research gap priority is unsupported");
    let mut p = output();
    p.gaps[2].search_query = "agent MEMORY failure modes".into();
    assert_eq!(validate_research_output(p, &input).unwrap_err(), "research gaps must not duplicate titles or search queries");
    let mut p = output();
    p.gaps[2].title = "x".into();
    assert_eq!(validate_research_output(p, &input).unwrap_err(), "research gap fields are too short");
}

#[test]
fn topic_is_collapsed_and_bounded() {
    assert_eq!(normalize_topic("  Agent \n memory ").unwrap(), "Agent memory");
    assert!(normalize_topic("a").is_err());
    assert!(normalize_topic(&"x".repeat(121)).is_err());
    assert!(normalize_topic(&"x".repeat(120)).is_ok());
}

#[test]
fn research_search_uses_topic_words_or_its_prefix() {
    assert_eq!(research_fts_expression("Agent, memory!"), "\"Agent\"* OR \"memory\"*");
    assert_eq!(research_fts_expression("a b"), "\"a b\"*");
    assert_eq!(
        research_fts_expression("one two three four five six"),
        "\"one\"* OR \"two\"* OR \"three\"* OR \"four\"* OR \"five\"*"
    );
}

#[test]
fn research_helpers_escape_trim_and_require_ids() {
    assert_eq!(escape_like("100%"), "100\\%");
    assert_eq!(bounded("  abc  ", 2), "ab");
    assert_eq!(required_id(" p1 ", "plan").unwrap(), "p1");
    assert_eq!(required_id(" ", "plan").unwrap_err(), "plan id is invalid");
}

use zhiforge_knowledge::research::gap_status;

#[test]
fn gap_status_is_one_of_four() {
    assert_eq!(gap_status(" Covered ").unwrap(), "covered");
    assert_eq!(gap_status("open").unwrap(), "open");
    assert_eq!(gap_status("COLLECTING").unwrap(), "collecting");
    assert_eq!(gap_status("dismissed").unwrap(), "dismissed");
    assert_eq!(gap_status("closed").unwrap_err(), "unsupported research gap status");
}

use zhiforge_knowledge::research::validate_gaps_keyed;

#[test]
fn keyed_gaps_reject_a_repeated_title_or_query_key() {
    let gaps = vec![
        gap("Failure modes", "high", "memory failures", vec![]),
        gap("FAILURE MODES", "low", "other query", vec![]),
    ];
    let allowed: Vec<String> = vec![];
    let titles = vec!["failure modes".to_string(), "failure modes".to_string()];
    let queries = vec!["memory failures".to_string(), "other query".to_string()];
    assert_eq!(
        validate_gaps_keyed(&gaps, &allowed, &titles, &queries).unwrap_err(),
        "research gaps must not duplicate titles or search queries"
    );
    let other_titles = vec!["failure modes".to_string(), "another".to_string()];
    assert_eq!(validate_gaps_keyed(&gaps, &allowed, &other_titles, &queries).unwrap().len(), 2);
    let same_query = vec!["q".to_string(), "q".to_string()];
    assert!(validate_gaps_keyed(&gaps, &allowed, &other_titles, &same_query).is_err());
}
