use zhiforge_knowledge::management::{
    clean_optional, escape_like, fts_expression, is_relation_type, normalized_name, required_id,
    RELATION_TYPES,
};

#[test]
fn names_are_normalized_without_becoming_folders() {
    assert_eq!(normalized_name("  Agent   Reliability ", "topic", 120).unwrap(), "Agent Reliability");
    assert!(normalized_name("   ", "topic", 120).is_err());
}

#[test]
fn relation_types_are_explicit_semantics() {
    assert!(RELATION_TYPES.contains(&"contradicts"));
    assert!(RELATION_TYPES.contains(&"prerequisite_of"));
    assert!(!RELATION_TYPES.contains(&"similarity"));
}

#[test]
fn search_escapes_like_wildcards_and_fts_quotes() {
    assert_eq!(escape_like("50%_done"), "50\\%\\_done");
    assert_eq!(fts_expression("agent retry"), "\"agent\"* AND \"retry\"*");
}

#[test]
fn relation_predicate_matches_the_list() {
    for t in RELATION_TYPES {
        assert!(is_relation_type(t));
    }
    assert!(!is_relation_type("Supports"));
}

#[test]
fn long_names_and_blank_ids_are_errors() {
    assert_eq!(normalized_name("abcd", "tag", 3).unwrap_err(), "tag name is too long");
    assert_eq!(normalized_name(" ", "tag", 3).unwrap_err(), "tag name is empty");
    assert_eq!(required_id(" ", "topic").unwrap_err(), "topic id is empty");
    assert_eq!(clean_optional(Some("  x ".into())), Some("x".to_string()));
    assert_eq!(clean_optional(Some("   ".into())), None);
}

#[test]
fn fts_terms_double_quotes_and_escape_backslash() {
    assert_eq!(fts_expression("say \"hi\""), "\"say\"* AND \"\"\"hi\"\"\"*");
    assert_eq!(escape_like("a\\b"), "a\\\\b");
    assert_eq!(fts_expression("   "), "");
}

use zhiforge_knowledge::management::{
    check_tag_deletable, check_topic_archivable, check_topic_editable, note_value,
    relation_request,
};

#[test]
fn name_errors_say_which_rule_failed() {
    assert_eq!(normalized_name("  ", "topic", 10).unwrap_err(), "topic name is empty");
    assert_eq!(normalized_name("a b c d e f", "tag", 5).unwrap_err(), "tag name is too long");
}

#[test]
fn notes_are_trimmed_and_bounded() {
    assert_eq!(note_value("  keep this  ").unwrap(), Some("keep this".to_string()));
    assert_eq!(note_value(" \n ").unwrap(), None);
    assert_eq!(note_value(&"x".repeat(100_001)).unwrap_err(), "note is too large");
    assert!(note_value(&"知".repeat(100_000)).unwrap().is_some());
}

#[test]
fn relation_requests_are_checked() {
    assert_eq!(
        relation_request(" k1 ", "k2", " Supports ").unwrap(),
        ("k1".to_string(), "k2".to_string(), "supports".to_string())
    );
    assert_eq!(relation_request(" ", "k2", "supports").unwrap_err(), "source knowledge id is empty");
    assert_eq!(relation_request("k1", "", "supports").unwrap_err(), "target knowledge id is empty");
    assert_eq!(
        relation_request("k1", " k1", "supports").unwrap_err(),
        "a knowledge unit cannot relate to itself"
    );
    assert_eq!(relation_request("k1", "k2", "likes").unwrap_err(), "unsupported relation type");
}

#[test]
fn locked_and_archived_topics_and_used_tags_are_protected() {
    assert!(check_topic_editable(false, None).is_ok());
    assert_eq!(check_topic_editable(true, Some(1)).unwrap_err(), "locked topic cannot be edited");
    assert_eq!(
        check_topic_editable(false, Some(1)).unwrap_err(),
        "archived topic must be restored before editing"
    );
    assert_eq!(check_topic_archivable(true).unwrap_err(), "locked topic cannot be archived");
    assert!(check_topic_archivable(false).is_ok());
    assert!(check_tag_deletable(0).is_ok());
    assert_eq!(
        check_tag_deletable(2).unwrap_err(),
        "tag is still assigned to knowledge and cannot be deleted"
    );
}

#[test]
fn topic_lifecycle_preserves_data_and_enforces_active_state() {
    assert!(check_topic_editable(false, None).is_ok());
    assert!(check_topic_archivable(false).is_ok());
    assert!(check_topic_editable(false, Some(10)).is_err());
    assert!(check_topic_archivable(false).is_ok());
    assert!(check_topic_editable(false, None).is_ok());
    assert!(check_topic_editable(true, None).is_err());
    assert!(check_topic_archivable(true).is_err());
}

#[test]
fn empty_tag_deletion_refuses_any_existing_assignment() {
    assert!(check_tag_deletable(0).is_ok());
    assert!(check_tag_deletable(1).is_err());
}
