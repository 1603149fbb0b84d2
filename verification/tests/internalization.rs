use zhiforge_knowledge::grounding::{
    evidence_candidates, evidence_offsets, exact_byte_range, ground_evidence_quote, preview,
    strip_leading_bullet, strip_wrapping_quote, whitespace_normalized_byte_range,
    whitespace_normalized_chars,
};
use zhiforge_knowledge::internalization::{
    extraction_unit_limit, fallback_extract_batch, fallback_question_batch, normalize_strings,
    split_source_text, summarize_fallback_claim, validate_extract, validate_extract_batch,
    validate_question_batch, validate_question_set, ExtractBatchSchema, ExtractSchema,
    QuestionBatchSchema, QuestionBatchUnitSchema, QuestionSchema, QuestionSetSchema,
};

fn extract(core_claim: &str, evidence: &str) -> ExtractSchema {
    ExtractSchema {
        core_claim: core_claim.into(),
        concepts: Vec::new(),
        prerequisites: Vec::new(),
        important_details: Vec::new(),
        limitations: Vec::new(),
        evidence: vec![evidence.into()],
    }
}

fn question(question: &str, evidence: &str) -> QuestionSchema {
    QuestionSchema {
        question_type: "explain".into(),
        question: question.into(),
        reference_points: vec!["point".into()],
        evidence: vec![evidence.into()],
        difficulty: 2,
    }
}

#[test]
fn extract_schema_requires_real_evidence() {
    let parsed = ExtractSchema {
        core_claim: "A".into(),
        concepts: vec![],
        prerequisites: vec![],
        important_details: vec![],
        limitations: vec![],
        evidence: vec!["exact quote".into()],
    };
    assert_eq!(
        validate_extract(parsed, "prefix exact quote suffix")
            .unwrap()
            .core_claim,
        "A"
    );
    assert!(evidence_offsets("source", "invented").is_err());
}

#[test]
fn evidence_grounding_restores_exact_source_whitespace() {
    let source = "prefix Alpha\n\n beta\tgamma suffix";
    let grounded = ground_evidence_quote(source, "Alpha beta gamma").unwrap();
    assert_eq!(grounded, "Alpha\n\n beta\tgamma");
    let validated = validate_extract(extract("Spacing claim", "Alpha beta gamma"), source).unwrap();
    assert_eq!(validated.evidence, vec!["Alpha\n\n beta\tgamma"]);
}

#[test]
fn evidence_grounding_strips_only_bounded_leading_bullet() {
    let source = "如果您需要将某些数据与其他数据完全分开，就创建独立空间。";
    let grounded = ground_evidence_quote(
        source,
        "・如果您需要将某些数据与其他数据完全分开，就创建独立空间。",
    )
    .unwrap();
    assert_eq!(grounded, source);
    assert!(ground_evidence_quote(source, "如果您需要把所有数据永久删除。").is_err());
}

#[test]
fn question_evidence_is_rewritten_to_exact_source_substring() {
    let source = "alpha\n  beta and gamma";
    let set = QuestionSetSchema {
        questions: vec![question("Why?", "alpha beta"), question("Apply it.", "gamma")],
    };
    let validated = validate_question_set(set, source).unwrap();
    assert_eq!(validated.questions[0].evidence, vec!["alpha\n  beta"]);
    assert_eq!(validated.questions[1].evidence, vec!["gamma"]);
}

#[test]
fn evidence_grounding_rejects_paraphrase_after_format_normalization() {
    let source = "吞吐量表示单位时间实际通过网络的数据量。";
    assert!(ground_evidence_quote(source, "吞吐量就是网络理论上的最大带宽。").is_err());
    assert!(validate_extract(extract("Invented", "吞吐量就是网络理论上的最大带宽。"), source).is_err());
}

#[test]
fn fallback_extraction_is_grounded_and_bounded() {
    let source = "第一条知识说明系统应先保存来源，再生成草稿。\n\n第二条知识说明草稿确认后才进入正式知识库。";
    let batch = fallback_extract_batch(source, 4).unwrap();
    assert!(!batch.knowledge_units.is_empty());
    assert!(batch.knowledge_units.len() <= 4);
    for unit in batch.knowledge_units {
        assert!(!unit.core_claim.is_empty());
        assert!(unit.evidence.iter().all(|quote| source.contains(quote.as_str())));
    }
}

#[test]
fn fallback_questions_are_grounded_and_complete() {
    let source = "知识草稿需要用户确认后才进入正式知识库。";
    let units = vec![extract("知识草稿需要确认后入库", source)];
    let batch = fallback_question_batch(&units, source).unwrap();
    assert_eq!(batch.knowledge_units.len(), 1);
    assert_eq!(batch.knowledge_units[0].questions.len(), 2);
    assert!(batch.knowledge_units[0]
        .questions
        .iter()
        .flat_map(|question| question.evidence.iter())
        .all(|quote| source.contains(quote.as_str())));
}

#[test]
fn question_schema_enforces_two_to_four_grounded_questions() {
    let set = QuestionSetSchema {
        questions: vec![
            QuestionSchema {
                question_type: "explain".into(),
                question: "Why?".into(),
                reference_points: vec!["point".into()],
                evidence: vec!["alpha".into()],
                difficulty: 2,
            },
            QuestionSchema {
                question_type: "apply".into(),
                question: "Apply it.".into(),
                reference_points: vec!["point".into()],
                evidence: vec!["beta".into()],
                difficulty: 3,
            },
        ],
    };
    assert!(validate_question_set(set, "alpha and beta").is_ok());
}

#[test]
fn long_source_split_prefers_sentence_boundaries_and_preserves_text() {
    let source = format!("{}。{}。{}", "甲".repeat(2_800), "乙".repeat(2_800), "丙".repeat(2_800));
    let chunks = split_source_text(&source, 5_000);
    assert!(chunks.len() >= 2);
    assert!(chunks.iter().all(|chunk| !chunk.trim().is_empty()));
    assert_eq!(chunks.concat(), source);
}

#[test]
fn extraction_limit_scales_with_source_length() {
    assert_eq!(extraction_unit_limit(&"x".repeat(2_500)), 4);
    assert_eq!(extraction_unit_limit(&"x".repeat(2_501)), 8);
    assert_eq!(extraction_unit_limit(&"x".repeat(7_000)), 8);
    assert_eq!(extraction_unit_limit(&"x".repeat(7_001)), 12);
}

#[test]
fn extract_batch_respects_dynamic_limit() {
    let batch = ExtractBatchSchema {
        knowledge_units: (0..5)
            .map(|index| extract(&format!("Claim {index}"), "alpha evidence"))
            .collect(),
    };
    assert!(validate_extract_batch(batch.clone(), "alpha evidence", 4).is_err());
    assert_eq!(
        validate_extract_batch(batch, "alpha evidence", 8)
            .unwrap()
            .knowledge_units
            .len(),
        5
    );
}

#[test]
fn extract_batch_requires_distinct_grounded_units() {
    let valid = ExtractBatchSchema {
        knowledge_units: vec![
            extract("Alpha claim", "alpha evidence"),
            extract("Beta claim", "beta evidence"),
        ],
    };
    let validated = validate_extract_batch(valid, "alpha evidence and beta evidence", 4).unwrap();
    assert_eq!(validated.knowledge_units.len(), 2);

    let duplicate = ExtractBatchSchema {
        knowledge_units: vec![
            extract("Same claim", "alpha evidence"),
            extract("same claim", "beta evidence"),
        ],
    };
    assert!(validate_extract_batch(duplicate, "alpha evidence and beta evidence", 4).is_err());
}

#[test]
fn question_batch_normalizes_index_order_and_rejects_duplicates() {
    let batch = QuestionBatchSchema {
        knowledge_units: vec![
            QuestionBatchUnitSchema {
                knowledge_index: 1,
                questions: vec![
                    question("Beta one?", "beta evidence"),
                    question("Beta two?", "beta evidence"),
                ],
            },
            QuestionBatchUnitSchema {
                knowledge_index: 0,
                questions: vec![
                    question("Alpha one?", "alpha evidence"),
                    question("Alpha two?", "alpha evidence"),
                ],
            },
        ],
    };
    let validated = validate_question_batch(batch, 2, "alpha evidence and beta evidence").unwrap();
    assert_eq!(validated.knowledge_units[0].knowledge_index, 0);
    assert_eq!(validated.knowledge_units[1].knowledge_index, 1);

    let duplicate = QuestionBatchSchema {
        knowledge_units: vec![
            QuestionBatchUnitSchema {
                knowledge_index: 0,
                questions: vec![question("One?", "alpha evidence"), question("Two?", "alpha evidence")],
            },
            QuestionBatchUnitSchema {
                knowledge_index: 0,
                questions: vec![question("Three?", "beta evidence"), question("Four?", "beta evidence")],
            },
        ],
    };
    assert!(validate_question_batch(duplicate, 2, "alpha evidence and beta evidence").is_err());
}

// Further cases of the grounding and validation rules.

#[test]
fn wrapped_quote_is_unwrapped_before_matching() {
    assert_eq!(strip_wrapping_quote("  “alpha beta”  ").as_deref(), Some("alpha beta"));
    assert_eq!(strip_wrapping_quote("\"\""), None);
    assert_eq!(strip_wrapping_quote("“alpha\""), None);
    assert_eq!(ground_evidence_quote("say alpha beta now", "「alpha beta」").unwrap(), "alpha beta");
}

#[test]
fn bullet_is_removed_only_when_text_follows() {
    assert_eq!(strip_leading_bullet("  - item text").as_deref(), Some("item text"));
    assert_eq!(strip_leading_bullet("-   "), None);
    assert_eq!(strip_leading_bullet("plain"), None);
}

#[test]
fn candidates_are_trimmed_distinct_and_ordered() {
    assert_eq!(
        evidence_candidates(" \"- alpha\" "),
        vec!["\"- alpha\"".to_string(), "- alpha".to_string(), "alpha".to_string()]
    );
    assert_eq!(evidence_candidates("   "), Vec::<String>::new());
}

#[test]
fn offsets_count_characters_of_the_first_occurrence() {
    assert_eq!(evidence_offsets("甲乙丙乙丙", " 乙丙 ").unwrap(), (1, 3));
    assert!(evidence_offsets("abc", "   ").is_err());
}

#[test]
fn exact_ranges_are_utf8_byte_offsets() {
    assert_eq!(exact_byte_range("甲乙丙", "丙"), Some((6, 9)));
    assert_eq!(exact_byte_range("abc", "d"), None);
    assert_eq!(exact_byte_range("é", "é"), Some((0, 2)));
    assert_eq!(exact_byte_range("aé😀b", "b"), Some((7, 8)));
    assert_eq!(exact_byte_range("甲乙丙乙丙", "乙丙"), Some((3, 9)));
    assert_eq!(exact_byte_range("abc", ""), Some((0, 0)));
}

#[test]
fn whitespace_runs_normalize_to_one_space() {
    let normalized = whitespace_normalized_chars("a \t b");
    assert_eq!(normalized, vec![('a', 0, 1), (' ', 1, 4), ('b', 4, 5)]);
    assert_eq!(whitespace_normalized_byte_range("x  a\n b y", "a b"), Some((3, 7)));
    assert_eq!(whitespace_normalized_byte_range("x a b", "  "), None);
}

#[test]
fn whitespace_normalization_reports_utf8_byte_offsets() {
    assert_eq!(whitespace_normalized_chars("é"), vec![('é', 0, 2)]);
    assert_eq!(
        whitespace_normalized_chars("甲\u{3000} 乙"),
        vec![('甲', 0, 3), (' ', 3, 7), ('乙', 7, 10)]
    );
    assert_eq!(whitespace_normalized_byte_range("前 甲  乙 后", "甲 乙"), Some((4, 12)));
    assert_eq!(whitespace_normalized_byte_range("甲乙", "丙"), None);
}

#[test]
fn preview_keeps_eighty_characters() {
    let long = "字".repeat(100);
    assert_eq!(preview(&long).chars().count(), 80);
    assert_eq!(preview("short"), "short");
}

#[test]
fn strings_are_trimmed_deduplicated_and_bounded() {
    let values = vec![" a ".to_string(), "a".to_string(), "".into(), "toolong".into(), "b".into(), "c".into()];
    assert_eq!(normalize_strings(values, 2, 3), vec!["a".to_string(), "b".to_string()]);
}

#[test]
fn fallback_claim_collapses_whitespace_and_marks_cuts() {
    assert_eq!(summarize_fallback_claim("  a \n b  c ", 10), "a b c");
    assert_eq!(summarize_fallback_claim("abcdef", 3), "abc…");
}

#[test]
fn short_source_is_one_chunk_even_when_blank() {
    assert_eq!(split_source_text("  ", 650), vec!["  ".to_string()]);
    assert_eq!(split_source_text("ab\n\ncd", 3), vec!["ab\n".to_string(), "\ncd".to_string()]);
}

#[test]
fn fallback_extraction_rejects_blank_source() {
    assert!(fallback_extract_batch(" \n ", 4).is_err());
}

#[test]
fn fallback_extraction_succeeds_on_any_non_blank_source() {
    let long = "句子。".repeat(400);
    let spaced = format!("  {}  ", "词 ".repeat(700));
    for source in ["x", "  甲  ", "a\n\n\nb", long.as_str(), spaced.as_str(), "… …"] {
        let batch = fallback_extract_batch(source, 0).unwrap();
        assert!(!batch.knowledge_units.is_empty());
        for unit in &batch.knowledge_units {
            assert!(!unit.core_claim.is_empty());
            assert!(unit.evidence.iter().all(|quote| source.contains(quote.as_str())));
        }
    }
    assert_eq!(fallback_extract_batch(&long, 3).unwrap().knowledge_units.len(), 1);
}

#[test]
fn question_validation_rejects_each_invalid_field() {
    let mut bad_type = question("Why?", "alpha");
    bad_type.question_type = "choice".into();
    assert!(validate_question_set(QuestionSetSchema { questions: vec![bad_type, question("b?", "alpha")] }, "alpha").is_err());
    let mut bad_difficulty = question("Why?", "alpha");
    bad_difficulty.difficulty = 4;
    assert!(validate_question_set(QuestionSetSchema { questions: vec![bad_difficulty, question("b?", "alpha")] }, "alpha").is_err());
    assert!(validate_question_set(QuestionSetSchema { questions: vec![question("a?", "alpha")] }, "alpha").is_err());
    let mut upper = question("Why?", "alpha");
    upper.question_type = " APPLY ".into();
    let ok = validate_question_set(QuestionSetSchema { questions: vec![upper, question("b?", "alpha")] }, "alpha").unwrap();
    assert_eq!(ok.questions[0].question_type, "apply");
}

#[test]
fn validation_errors_name_the_failing_rule() {
    let empty = ExtractBatchSchema { knowledge_units: vec![] };
    assert_eq!(validate_extract_batch(empty, "alpha", 4).unwrap_err(), "knowledge_units must contain 1 to 4 items");
    assert_eq!(validate_extract(extract("  ", "alpha"), "alpha").unwrap_err(), "core_claim is empty");
    assert_eq!(validate_extract(extract(&"c".repeat(1201), "alpha"), "alpha").unwrap_err(), "core_claim is too long");
    assert_eq!(validate_extract(extract("c", "gamma"), "alpha").unwrap_err(), "evidence is not an exact source quote: gamma");
    assert_eq!(validate_extract(extract("c", "   "), "alpha").unwrap_err(), "evidence is empty");
    assert_eq!(ground_evidence_quote("alpha", " ").unwrap_err(), "evidence quote is empty");
    let mut bad_type = question("a?", "alpha");
    bad_type.question_type = " Essay ".into();
    assert_eq!(
        validate_question_set(QuestionSetSchema { questions: vec![bad_type, question("b?", "alpha")] }, "alpha").unwrap_err(),
        "unsupported question type 'essay'"
    );
    assert_eq!(
        validate_question_set(QuestionSetSchema { questions: vec![question("a?", "alpha")] }, "alpha").unwrap_err(),
        "questions must contain 2 to 4 items"
    );
    let wrong_count = QuestionBatchSchema { knowledge_units: vec![] };
    assert_eq!(
        validate_question_batch(wrong_count, 1, "alpha").unwrap_err(),
        "question batch must contain exactly one entry per knowledge unit"
    );
    assert_eq!(fallback_extract_batch("  ", 3).unwrap_err(), "source text is empty");
}

use zhiforge_knowledge::internalization::merge_question_batches;

fn unit(index: usize, text: &str) -> QuestionBatchUnitSchema {
    QuestionBatchUnitSchema {
        knowledge_index: index,
        questions: vec![question(text, "quote")],
    }
}

#[test]
fn question_batches_merge_four_units_at_a_time() {
    let batches = vec![
        vec![unit(2, "third"), unit(0, "first"), unit(3, "fourth"), unit(1, "second")],
        vec![unit(0, "fifth")],
    ];
    let merged = merge_question_batches(&batches, 5).unwrap();
    let order: Vec<(usize, &str)> = merged
        .iter()
        .map(|u| (u.knowledge_index, u.questions[0].question.as_str()))
        .collect();
    assert_eq!(
        order,
        vec![(0, "first"), (1, "second"), (2, "third"), (3, "fourth"), (4, "fifth")]
    );
}

#[test]
fn question_batches_must_cover_every_unit_once() {
    let message = "question batches did not cover every extracted knowledge unit";
    let batches = vec![vec![unit(0, "a"), unit(1, "b")], vec![unit(0, "c")]];
    assert_eq!(merge_question_batches(&batches, 6).unwrap_err(), message);
    let repeated = vec![vec![unit(0, "a"), unit(0, "b")]];
    assert_eq!(merge_question_batches(&repeated, 2).unwrap_err(), message);
    let outside = vec![vec![unit(0, "a"), unit(7, "b")]];
    assert_eq!(merge_question_batches(&outside, 2).unwrap_err(), message);
    assert!(merge_question_batches(&vec![], 0).unwrap().is_empty());
}

use zhiforge_knowledge::internalization::{check_question_generation, check_question_job, standalone_questions};

#[test]
fn question_generation_waits_for_grounded_extraction() {
    assert!(check_question_generation("A claim", 1).is_ok());
    assert_eq!(
        check_question_generation("  ", 3).unwrap_err(),
        "knowledge extraction has not completed yet"
    );
    assert_eq!(
        check_question_generation("A claim", 0).unwrap_err(),
        "knowledge has no grounded evidence for question generation"
    );
    assert!(check_question_job("A claim", 2).is_ok());
    let incomplete = "knowledge extraction is incomplete; cannot generate questions";
    assert_eq!(check_question_job("", 2).unwrap_err(), incomplete);
    assert_eq!(check_question_job("A claim", 0).unwrap_err(), incomplete);
}

#[test]
fn standalone_batches_hold_one_entry_for_index_zero() {
    let good = QuestionBatchSchema { knowledge_units: vec![unit(0, "only")] };
    let questions = standalone_questions(good).unwrap();
    assert_eq!(questions.len(), 1);
    assert_eq!(questions[0].question, "only");
    let message = "standalone question generation returned an invalid knowledge batch";
    let shifted = QuestionBatchSchema { knowledge_units: vec![unit(1, "x")] };
    assert_eq!(standalone_questions(shifted).unwrap_err(), message);
    let two = QuestionBatchSchema { knowledge_units: vec![unit(0, "x"), unit(1, "y")] };
    assert_eq!(standalone_questions(two).unwrap_err(), message);
    assert_eq!(standalone_questions(QuestionBatchSchema { knowledge_units: vec![] }).unwrap_err(), message);
}

use zhiforge_knowledge::internalization::{internalize_start, question_job_start, JobStart};

fn some(value: &str) -> Option<String> {
    Some(value.to_string())
}

#[test]
fn internalization_reuses_finished_and_running_work() {
    assert_eq!(internalize_start(&some("ready"), "captured", 0, &None), JobStart::AlreadyDone);
    assert_eq!(internalize_start(&some("ignored"), "captured", 0, &some("running")), JobStart::AlreadyDone);
    assert_eq!(internalize_start(&None, "learning", 3, &None), JobStart::AlreadyDone);
    assert_eq!(internalize_start(&None, "captured", 3, &some("running")), JobStart::Running);
    assert_eq!(internalize_start(&some("processing"), "captured", 0, &some("pending")), JobStart::Running);
    assert_eq!(internalize_start(&None, "learning", 0, &some("failed")), JobStart::Start);
    assert_eq!(internalize_start(&None, "captured", 0, &None), JobStart::Start);
}

#[test]
fn question_jobs_are_reused_only_when_they_are_question_jobs() {
    let job = |t: &str, s: &str| Some((t.to_string(), s.to_string()));
    assert_eq!(question_job_start(2, &None), JobStart::AlreadyDone);
    assert_eq!(question_job_start(0, &job("question_generation", "running")), JobStart::Running);
    assert_eq!(question_job_start(0, &job("internalize", "running")), JobStart::Start);
    assert_eq!(question_job_start(0, &job("question_generation", "failed")), JobStart::Start);
    assert_eq!(question_job_start(0, &None), JobStart::Start);
}

use zhiforge_knowledge::internalization::{fallback_units_with_keys, validate_extract_units_keyed};

#[test]
fn keyed_extraction_rejects_a_repeated_key() {
    let units = vec![extract("Same claim", "alpha"), extract("same claim", "beta")];
    let keys = vec!["same claim".to_string(), "same claim".to_string()];
    assert_eq!(
        validate_extract_units_keyed(&units, "alpha beta", &keys).unwrap_err(),
        "knowledge_units contains duplicate core_claim values"
    );
    let distinct = vec!["same claim".to_string(), "other".to_string()];
    assert_eq!(validate_extract_units_keyed(&units, "alpha beta", &distinct).unwrap().len(), 2);
    let invalid = vec![extract("Same claim", "alpha"), extract("x", "missing")];
    assert!(validate_extract_units_keyed(&invalid, "alpha", &keys)
        .unwrap_err()
        .starts_with("evidence is not an exact source quote"));
}

#[test]
fn validated_batch_treats_claims_differing_in_case_as_repeats() {
    let batch = ExtractBatchSchema {
        knowledge_units: vec![extract("Same claim", "alpha"), extract(" same CLAIM ", "beta")],
    };
    assert_eq!(
        validate_extract_batch(batch, "alpha beta", 4).unwrap_err(),
        "knowledge_units contains duplicate core_claim values"
    );
}

#[test]
fn keyed_fallback_skips_repeated_keys_blank_chunks_and_caps() {
    let chunks = vec!["First part.".to_string(), "  ".to_string(), "Second part.".to_string(), "Third.".to_string()];
    let keys = vec!["a".to_string(), "b".to_string(), "a".to_string(), "c".to_string()];
    let units = fallback_units_with_keys(&chunks, &keys, 4);
    let claims: Vec<&str> = units.iter().map(|u| u.core_claim.as_str()).collect();
    assert_eq!(claims, vec!["First part.", "Third."]);
    assert_eq!(fallback_units_with_keys(&chunks, &keys, 1).len(), 1);
}
