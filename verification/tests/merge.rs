use zhiforge_knowledge::merge::{recommend_target, required_id, MergeSideSummary};

fn side(id: &str, review_count: i64, evidence_count: i64, source_count: i64, updated_at: i64) -> MergeSideSummary {
    MergeSideSummary {
        id: id.into(),
        title: id.into(),
        source_count,
        evidence_count,
        topic_count: 0,
        tag_count: 0,
        relation_count: 0,
        review_count,
        mastery_score: 0,
        updated_at,
        archived_at: None,
    }
}

#[test]
fn merge_keeps_the_reviewed_side_first() {
    let (id, reason) = recommend_target(&side("a", 1, 0, 0, 0), &side("b", 3, 9, 9, 9));
    assert_eq!(id, "b");
    assert!(reason.contains("复习记录"));
}

#[test]
fn merge_rules_apply_in_order_and_read_the_same_both_ways() {
    assert_eq!(recommend_target(&side("a", 1, 5, 0, 0), &side("b", 1, 2, 9, 9)).0, "a");
    assert_eq!(recommend_target(&side("a", 1, 2, 1, 0), &side("b", 1, 2, 4, 0)).0, "b");
    assert_eq!(recommend_target(&side("a", 1, 2, 4, 7), &side("b", 1, 2, 4, 3)).0, "a");
    let x = side("x", 2, 3, 4, 5);
    let y = side("y", 2, 1, 4, 5);
    assert_eq!(recommend_target(&x, &y), recommend_target(&y, &x));
}

#[test]
fn merge_ids_are_required() {
    assert_eq!(required_id(" m ", "merge").unwrap(), "m");
    assert!(required_id(" ", "merge").is_err());
}

use zhiforge_knowledge::merge::merge_recommendation;

#[test]
fn merge_recommendation_respects_existing_merges_and_archives() {
    let a = side("a", 1, 0, 0, 0);
    let b = side("b", 3, 0, 0, 0);
    assert_eq!(merge_recommendation(&a, &b, Some("a".into())).unwrap().0, "a");
    assert_eq!(merge_recommendation(&a, &b, None).unwrap().0, "b");
    let mut archived = side("c", 0, 0, 0, 0);
    archived.archived_at = Some(5);
    assert_eq!(
        merge_recommendation(&a, &archived, None).unwrap_err(),
        "one of the duplicate items is archived; restore it before merging"
    );
    assert!(merge_recommendation(&a, &archived, Some("a".into())).is_ok());
}

use zhiforge_knowledge::merge::{
    check_merge_revisions, check_revert_source, merge_marker, merge_start, revert_start, MergeStart,
};

#[test]
fn merge_start_picks_the_other_side_as_source() {
    match merge_start("left", "right", "left", None).unwrap() {
        MergeStart::Apply { source_id } => assert_eq!(source_id, "right"),
        MergeStart::AlreadyMerged => panic!("no merge was made yet"),
    }
    match merge_start("left", "right", "right", None).unwrap() {
        MergeStart::Apply { source_id } => assert_eq!(source_id, "left"),
        MergeStart::AlreadyMerged => panic!("no merge was made yet"),
    }
}

#[test]
fn merge_start_rejects_foreign_targets_and_other_merges() {
    assert_eq!(
        merge_start("left", "right", "elsewhere", None).err().unwrap(),
        "merge target is not part of this duplicate pair"
    );
    assert!(matches!(
        merge_start("left", "right", "left", Some("left".into())),
        Ok(MergeStart::AlreadyMerged)
    ));
    assert_eq!(
        merge_start("left", "right", "left", Some("right".into())).err().unwrap(),
        "this duplicate pair is already merged with a different target"
    );
}

#[test]
fn merge_waits_for_an_unchanged_preview() {
    assert!(check_merge_revisions(10, 20, 10, 20).is_ok());
    assert_eq!(
        check_merge_revisions(11, 20, 10, 20).unwrap_err(),
        "duplicate knowledge changed after preview; refresh the merge preview"
    );
    assert!(check_merge_revisions(10, 21, 10, 20).is_err());
}

#[test]
fn merge_marker_names_the_merge() {
    assert_eq!(merge_marker("m-1"), "merge:m-1");
}

#[test]
fn revert_follows_the_merge_status() {
    assert_eq!(revert_start("reverted"), Ok(true));
    assert_eq!(revert_start("applied"), Ok(false));
    assert_eq!(
        revert_start("pending").unwrap_err(),
        "knowledge merge is not reversible in its current state"
    );
}

#[test]
fn revert_needs_the_source_as_the_merge_left_it() {
    assert!(check_revert_source(Some(500), None, 500).is_ok());
    let blocked = "merged source changed after merge; automatic revert was blocked";
    assert_eq!(check_revert_source(Some(501), None, 500).unwrap_err(), blocked);
    assert_eq!(check_revert_source(None, None, 500).unwrap_err(), blocked);
    assert_eq!(check_revert_source(Some(500), Some(600), 500).unwrap_err(), blocked);
}

#[test]
fn preview_recommends_reviewed_item_and_merge_round_trip_is_reversible() {
    let (target, _) = recommend_target(&side("k1", 5, 1, 1, 100), &side("k2", 1, 1, 1, 200));
    assert_eq!(target, "k1");
    let source = match merge_start("k1", "k2", &target, None).unwrap() {
        MergeStart::Apply { source_id } => source_id,
        MergeStart::AlreadyMerged => panic!("no merge was made yet"),
    };
    assert_eq!(source, "k2");
    assert!(check_merge_revisions(100, 200, 100, 200).is_ok());
    let created_at = 1_000;
    assert_eq!(revert_start("applied"), Ok(false));
    assert!(check_revert_source(Some(created_at), None, created_at).is_ok());
    assert_eq!(revert_start("reverted"), Ok(true));
    assert!(matches!(
        merge_start("k1", "k2", "k1", Some("k1".into())),
        Ok(MergeStart::AlreadyMerged)
    ));
}

#[test]
fn merge_rejects_stale_preview_revision() {
    let error = check_merge_revisions(100, 201, 100, 200).unwrap_err();
    assert!(error.contains("changed after preview"));
}

use zhiforge_knowledge::merge::{merged_link_role, moved_relation};

#[test]
fn merged_relations_move_to_the_kept_side() {
    assert_eq!(
        moved_relation("k2", "k3", "k2", "k1"),
        Some(("k1".to_string(), "k3".to_string()))
    );
    assert_eq!(
        moved_relation("k3", "k2", "k2", "k1"),
        Some(("k3".to_string(), "k1".to_string()))
    );
    assert_eq!(moved_relation("k2", "k1", "k2", "k1"), None);
    assert_eq!(moved_relation("k1", "k2", "k2", "k1"), None);
    assert_eq!(merged_link_role("origin"), "supporting");
    assert_eq!(merged_link_role("conflicting"), "conflicting");
}

use zhiforge_knowledge::merge::{plan_revert, RevertPlan};

#[test]
fn revert_plan_removes_the_merge_mark_and_restores_the_archive_time() {
    assert_eq!(
        plan_revert("m-7", None, Some(1_000), None, 1_000),
        Ok(RevertPlan {
            marker: "merge:m-7".to_string(),
            restore_archived_at: None,
            expected_archived_at: 1_000,
        })
    );
    assert_eq!(
        plan_revert("m-7", Some(10), Some(1_000), None, 1_000).unwrap().restore_archived_at,
        Some(10)
    );
    let blocked = "merged source changed after merge; automatic revert was blocked";
    assert_eq!(plan_revert("m-7", None, None, None, 1_000).unwrap_err(), blocked);
    assert_eq!(plan_revert("m-7", None, Some(1_000), Some(2_000), 1_000).unwrap_err(), blocked);
    assert_ne!(merge_marker("m-7"), merge_marker("m-8"));
}
