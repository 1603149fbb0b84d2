use zhiforge_knowledge::review::{bounded_text, mastery_delta, required_session_id, status_for_mastery};

#[test]
fn mastery_delta_matches_mvp_rules() {
    assert_eq!(mastery_delta("correct").unwrap(), 15);
    assert_eq!(mastery_delta("partial").unwrap(), 5);
    assert_eq!(mastery_delta("wrong").unwrap(), -10);
    assert_eq!((40 + mastery_delta("correct").unwrap()).clamp(0, 100), 55);
    assert_eq!((40 + mastery_delta("partial").unwrap()).clamp(0, 100), 45);
    assert_eq!((40 + mastery_delta("wrong").unwrap()).clamp(0, 100), 30);
}

#[test]
fn mastery_status_boundaries_match_mvp_document() {
    assert_eq!(status_for_mastery(0), "weak");
    assert_eq!(status_for_mastery(39), "weak");
    assert_eq!(status_for_mastery(40), "learning");
    assert_eq!(status_for_mastery(69), "learning");
    assert_eq!(status_for_mastery(70), "reviewing");
    assert_eq!(status_for_mastery(89), "reviewing");
    assert_eq!(status_for_mastery(90), "mastered");
    assert_eq!(status_for_mastery(100), "mastered");
}

#[test]
fn unknown_judgement_result_is_an_error() {
    assert!(mastery_delta("Correct").is_err());
    assert!(mastery_delta("").is_err());
}

#[test]
fn out_of_range_scores_are_clamped_before_status() {
    assert_eq!(status_for_mastery(-5), "weak");
    assert_eq!(status_for_mastery(250), "mastered");
}

#[test]
fn status_never_drops_as_mastery_rises() {
    let order = ["weak", "learning", "reviewing", "mastered"];
    let mut last = 0;
    for score in -10..=110 {
        let rank = order.iter().position(|s| *s == status_for_mastery(score)).unwrap();
        assert!(rank >= last);
        last = rank;
    }
}

#[test]
fn session_id_is_trimmed_and_required() {
    assert_eq!(required_session_id("  s1 ").unwrap(), "s1");
    assert!(required_session_id(" \t ").is_err());
}

#[test]
fn review_text_is_cut_by_characters() {
    assert_eq!(bounded_text("知识草稿", 2), "知识");
    assert_eq!(bounded_text("ab", 5), "ab");
}

use zhiforge_knowledge::text::decimal_string;
use zhiforge_knowledge::review::{
    finish_review_plan, local_priority_reason, local_review_plan,
    plan_session_limit, validate_review_plan_output, LocalPlan, PlanQueueItem,
    ReviewPlanDecision, ReviewPlanOutput,
};

fn plan_decision(id: &str, reason: &str) -> ReviewPlanDecision {
    ReviewPlanDecision { knowledge_id: id.into(), reason: reason.into() }
}

#[test]
fn review_plan_validator_requires_exact_candidate_coverage() {
    let candidates = vec!["u1".to_string(), "u2".to_string()];
    let valid = validate_review_plan_output(
        ReviewPlanOutput {
            summary: "Prioritize the weaker item".into(),
            selected: vec![plan_decision("u1", "weaker")],
            deferred: vec![plan_decision("u2", "later")],
        },
        1,
        &candidates,
    )
    .unwrap();
    assert_eq!(valid.selected[0].knowledge_id, "u1");

    let duplicate = validate_review_plan_output(
        ReviewPlanOutput {
            summary: String::new(),
            selected: vec![plan_decision("u1", "first")],
            deferred: vec![plan_decision("u1", "again")],
        },
        1,
        &candidates,
    );
    assert!(duplicate.is_err());
}

#[test]
fn review_plan_errors_and_default_summary() {
    let candidates = vec!["u1".to_string(), "u2".to_string()];
    let wrong_count = validate_review_plan_output(
        ReviewPlanOutput { summary: "s".into(), selected: vec![], deferred: vec![plan_decision("u1", "r"), plan_decision("u2", "r")] },
        12,
        &candidates,
    );
    assert_eq!(wrong_count.unwrap_err(), "review plan must select exactly 12 items");
    let missing = validate_review_plan_output(
        ReviewPlanOutput { summary: "s".into(), selected: vec![plan_decision("u1", "r")], deferred: vec![] },
        1,
        &candidates,
    );
    assert_eq!(missing.unwrap_err(), "review plan must classify every supplied candidate exactly once");
    let empty_reason = validate_review_plan_output(
        ReviewPlanOutput { summary: "s".into(), selected: vec![plan_decision("u1", " ")], deferred: vec![plan_decision("u2", "r")] },
        1,
        &candidates,
    );
    assert_eq!(empty_reason.unwrap_err(), "review plan reason is empty");
    let ok = validate_review_plan_output(
        ReviewPlanOutput { summary: "  ".into(), selected: vec![plan_decision(" u2 ", " r ")], deferred: vec![plan_decision("u1", "q")] },
        1,
        &candidates,
    )
    .unwrap();
    assert_eq!(ok.summary, "优先复习 1 条，其余保留在到期队列。");
    assert_eq!(ok.selected[0].knowledge_id, "u2");
    assert_eq!(ok.selected[0].reason, "r");
    assert_eq!(ok.deferred[0].knowledge_id, "u1");
    let twice = vec!["u1".to_string(), "u1".to_string()];
    let omitted = validate_review_plan_output(
        ReviewPlanOutput { summary: "s".into(), selected: vec![plan_decision("u1", "r")], deferred: vec![] },
        1,
        &vec!["u1".to_string()],
    );
    assert!(omitted.is_ok());
    let dup_candidates = validate_review_plan_output(
        ReviewPlanOutput { summary: "s".into(), selected: vec![plan_decision("u1", "r")], deferred: vec![plan_decision("u9", "r")] },
        1,
        &twice,
    );
    assert_eq!(dup_candidates.unwrap_err(), "review plan referenced an unknown knowledge id");
}

fn queue_item(id: &str, review_count: i64) -> PlanQueueItem {
    PlanQueueItem {
        knowledge_unit_id: id.into(),
        status: "learning".into(),
        review_count,
        lapse_count: 0,
        wrong_count: 0,
        next_review_at: 0,
        low_stability: false,
    }
}

#[test]
fn whole_queue_is_selected_when_it_fits() {
    let queue = vec![queue_item("a", 1), queue_item("b", 0)];
    match local_review_plan(&queue, 5, 10) {
        LocalPlan::Ready(plan) => {
            assert_eq!(plan.summary, "当前有 2 条待学习/复习任务，全部纳入本次。");
            assert_eq!(plan.selected.len(), 2);
            assert!(plan.deferred.is_empty());
            assert_eq!(plan.selected[0].reason, "已到复习时间");
        }
        LocalPlan::NeedsRanking { .. } => panic!("expected a ready plan"),
    }
}

#[test]
fn first_learning_fills_a_small_session() {
    let queue = vec![queue_item("a", 1), queue_item("b", 0), queue_item("c", 0), queue_item("d", 0)];
    match local_review_plan(&queue, 2, 10) {
        LocalPlan::Ready(plan) => {
            assert_eq!(plan.summary, "本次优先完成 2 条首次学习任务。");
            let ids: Vec<&str> = plan.selected.iter().map(|d| d.knowledge_id.as_str()).collect();
            assert_eq!(ids, vec!["b", "c"]);
            let waiting: Vec<&str> = plan.deferred.iter().map(|d| d.reason.as_str()).collect();
            assert_eq!(waiting, vec!["本次容量优先留给首次学习", "首次学习任务超出本次容量，保留到下一轮"]);
        }
        LocalPlan::NeedsRanking { .. } => panic!("expected a ready plan"),
    }
}

#[test]
fn ranking_is_needed_for_the_reviewed_remainder() {
    let queue = vec![queue_item("a", 1), queue_item("b", 0), queue_item("c", 2)];
    match local_review_plan(&queue, 2, 10) {
        LocalPlan::NeedsRanking { first_learning, remaining_count } => {
            assert_eq!(first_learning, vec!["b".to_string()]);
            assert_eq!(remaining_count, 1);
            let planned = ReviewPlanOutput { summary: "重点复习 a".into(), selected: vec![plan_decision("a", "r")], deferred: vec![plan_decision("c", "later")] };
            let plan = finish_review_plan(&first_learning, planned);
            assert_eq!(plan.summary, "先学习 1 条新知识；重点复习 a");
            let ids: Vec<&str> = plan.selected.iter().map(|d| d.knowledge_id.as_str()).collect();
            assert_eq!(ids, vec!["b", "a"]);
            assert_eq!(plan.deferred.len(), 1);
        }
        LocalPlan::Ready(_) => panic!("expected ranking"),
    }
}

#[test]
fn local_reasons_follow_their_order() {
    let mut item = queue_item("a", 1);
    item.status = "weak".into();
    item.lapse_count = 3;
    assert_eq!(local_priority_reason(&item, 0), "薄弱知识优先巩固");
    item.status = "learning".into();
    assert_eq!(local_priority_reason(&item, 0), "多次遗忘，优先重新巩固");
    item.lapse_count = 0;
    item.low_stability = true;
    assert_eq!(local_priority_reason(&item, 0), "记忆稳定度较低");
    item.low_stability = false;
    item.wrong_count = 1;
    assert_eq!(local_priority_reason(&item, 0), "存在历史错误记录");
    item.wrong_count = 0;
    assert_eq!(local_priority_reason(&item, 86_400_000), "已逾期一天以上");
    assert_eq!(local_priority_reason(&item, 86_399_999), "已到复习时间");
    assert_eq!(plan_session_limit(None), 20);
    assert_eq!(plan_session_limit(Some(0)), 1);
    assert_eq!(plan_session_limit(Some(99)), 20);
    assert_eq!(decimal_string(0), "0");
    assert_eq!(decimal_string(1207), "1207");
}

use zhiforge_knowledge::review::judged_mastery;

#[test]
fn judged_mastery_moves_within_bounds() {
    assert_eq!(judged_mastery(40, "correct").unwrap(), (55, "learning"));
    assert_eq!(judged_mastery(95, "correct").unwrap(), (100, "mastered"));
    assert_eq!(judged_mastery(5, "wrong").unwrap(), (0, "weak"));
    assert_eq!(judged_mastery(65, "partial").unwrap(), (70, "reviewing"));
    assert_eq!(judged_mastery(50, "maybe").unwrap_err(), "unsupported judgement result");
}

#[test]
fn better_judgements_never_leave_less_mastery() {
    for score in [0, 10, 39, 40, 88, 95, 100] {
        let c = judged_mastery(score, "correct").unwrap().0;
        let p = judged_mastery(score, "partial").unwrap().0;
        let w = judged_mastery(score, "wrong").unwrap().0;
        assert!(0 <= w && w <= p && p <= c && c <= 100);
    }
}

use sha2::{Digest, Sha256};
use zhiforge_knowledge::review::{review_queue_revision, QueueRevisionItem};

fn revision_item(id: &str, question: Option<&str>, stability: f64, difficulty: f64) -> QueueRevisionItem {
    QueueRevisionItem {
        knowledge_unit_id: id.into(),
        question_id: question.map(|q| q.to_string()),
        status: "reviewing".into(),
        mastery_score: 55,
        wrong_count: -1,
        review_count: 3,
        next_review_at: 1_700_000_000_000,
        stability_bits: stability.to_bits(),
        difficulty_bits: difficulty.to_bits(),
        lapse_count: 1,
        scheduled_days: 4,
    }
}

fn hashed_like_the_queue(due_before: i64, items: &[QueueRevisionItem], stabilities: &[(f64, f64)]) -> String {
    let mut hasher = Sha256::new();
    hasher.update(due_before.to_le_bytes());
    for (item, (stability, difficulty)) in items.iter().zip(stabilities) {
        hasher.update(item.knowledge_unit_id.as_bytes());
        hasher.update([0]);
        hasher.update(item.question_id.as_deref().unwrap_or_default().as_bytes());
        hasher.update(item.status.as_bytes());
        hasher.update(item.mastery_score.to_le_bytes());
        hasher.update(item.wrong_count.to_le_bytes());
        hasher.update(item.review_count.to_le_bytes());
        hasher.update(item.next_review_at.to_le_bytes());
        hasher.update(stability.to_le_bytes());
        hasher.update(difficulty.to_le_bytes());
        hasher.update(item.lapse_count.to_le_bytes());
        hasher.update(item.scheduled_days.to_le_bytes());
    }
    format!("{:x}", hasher.finalize())
}

#[test]
fn queue_revision_hashes_the_queue_in_order() {
    let items = vec![
        revision_item("k1", Some("q1"), 2.5, 6.0),
        revision_item("知识", None, 0.75, 4.25),
    ];
    let numbers = [(2.5, 6.0), (0.75, 4.25)];
    let revision = review_queue_revision(-5, &items);
    assert_eq!(revision, hashed_like_the_queue(-5, &items, &numbers));
    assert_eq!(revision.len(), 64);
    let reversed = vec![items[1].clone(), items[0].clone()];
    assert_ne!(revision, review_queue_revision(-5, &reversed));
    assert_ne!(revision, review_queue_revision(-4, &items));
    assert_eq!(
        review_queue_revision(0, &vec![]),
        format!("{:x}", Sha256::digest(0i64.to_le_bytes()))
    );
}

use zhiforge_knowledge::review::{check_plan_revision, check_plan_selection, selected_positions};

fn id_list(values: &[&str]) -> Vec<String> {
    values.iter().map(|v| v.to_string()).collect()
}

#[test]
fn plan_selection_is_checked_before_starting() {
    assert_eq!(check_plan_selection("  rev-1 ", &id_list(&["k1", "k2"])).unwrap(), "rev-1");
    assert_eq!(
        check_plan_selection("   ", &id_list(&["k1"])).unwrap_err(),
        "review plan revision is empty"
    );
    assert_eq!(
        check_plan_selection("rev", &id_list(&[])).unwrap_err(),
        "review plan must select between 1 and 20 items"
    );
    let many: Vec<String> = (0..21).map(|i| format!("k{i}")).collect();
    assert_eq!(
        check_plan_selection("rev", &many).unwrap_err(),
        "review plan must select between 1 and 20 items"
    );
    assert!(check_plan_selection("rev", &many[..20].to_vec()).is_ok());
    assert_eq!(
        check_plan_selection("rev", &id_list(&["k1", "k2", "k1"])).unwrap_err(),
        "review plan contains duplicate knowledge ids"
    );
}

#[test]
fn plan_starts_only_on_its_queue() {
    assert!(check_plan_revision("abc", "abc").is_ok());
    assert_eq!(
        check_plan_revision("abc", "abd").unwrap_err(),
        "review plan is stale; refresh the plan before starting"
    );
    let queue = id_list(&["k1", "k2", "k3", "k2"]);
    assert_eq!(selected_positions(&queue, &id_list(&["k3", "k2"])).unwrap(), vec![2, 1]);
    assert_eq!(
        selected_positions(&queue, &id_list(&["k1", "k9"])).unwrap_err(),
        "review plan references an item that is no longer due"
    );
}

use zhiforge_knowledge::review::check_abandoned;

#[test]
fn abandoning_again_is_harmless_but_finished_sessions_stay_finished() {
    assert!(check_abandoned("abandoned").is_ok());
    assert_eq!(check_abandoned("completed").unwrap_err(), "review session is no longer active");
}

fn revision_entry(id: &str, question: &str, status: &str, mastery: i64, wrong: i64, reviews: i64, stability: f64) -> QueueRevisionItem {
    QueueRevisionItem {
        knowledge_unit_id: id.into(),
        question_id: Some(question.into()),
        status: status.into(),
        mastery_score: mastery,
        wrong_count: wrong,
        review_count: reviews,
        next_review_at: 100,
        stability_bits: stability.to_bits(),
        difficulty_bits: 5.0f64.to_bits(),
        lapse_count: 0,
        scheduled_days: 1,
    }
}

#[test]
fn review_plan_revision_changes_when_queue_state_changes() {
    let before = vec![
        revision_entry("u1", "q1", "weak", 20, 3, 4, 1.0),
        revision_entry("u2", "q2", "learning", 55, 1, 2, 1.0),
    ];
    let revision_before = review_queue_revision(200, &before);
    let after = vec![
        revision_entry("u1", "q1", "weak", 20, 3, 4, 1.25),
        revision_entry("u2", "q2", "learning", 55, 1, 2, 1.0),
    ];
    let revision_after = review_queue_revision(200, &after);
    assert_ne!(revision_before, revision_after);
}

#[test]
fn planned_session_preserves_selected_order_and_leaves_others_due() {
    let queue = id_list(&["u1", "u2"]);
    let positions = selected_positions(&queue, &id_list(&["u2"])).unwrap();
    assert_eq!(positions, vec![1]);
    assert_eq!(queue[positions[0]], "u2");
    assert!(!positions.contains(&0));
}

use zhiforge_knowledge::review::plan_item_position;

#[test]
fn planned_items_need_a_queue_entry_with_a_question() {
    let queue = id_list(&["u1", "u2", "u3"]);
    let questions = vec![Some("q1".to_string()), None, Some("q3".to_string())];
    assert_eq!(plan_item_position(&queue, &questions, &"u3".to_string()).unwrap(), (2, "q3".to_string()));
    assert_eq!(
        plan_item_position(&queue, &questions, &"u2".to_string()).unwrap_err(),
        "review plan item has no usable question"
    );
    assert_eq!(
        plan_item_position(&queue, &questions, &"u9".to_string()).unwrap_err(),
        "review plan item disappeared while building preview"
    );
}

use zhiforge_knowledge::review::session_finished;

#[test]
fn sessions_finish_when_every_item_is_done_or_skipped() {
    assert!(session_finished(2, 1, 3));
    assert!(!session_finished(1, 1, 3));
    assert!(session_finished(0, 0, 0));
    assert!(session_finished(i64::MAX, 5, i64::MAX));
}

use zhiforge_knowledge::review::{check_review_plan_start, review_plan_due_before};

#[test]
fn review_plan_needs_no_active_session_and_due_items() {
    assert_eq!(
        check_review_plan_start(true, 5).unwrap_err(),
        "an active review session already exists"
    );
    assert_eq!(check_review_plan_start(true, 0).unwrap_err(), "an active review session already exists");
    assert_eq!(check_review_plan_start(false, 0).unwrap_err(), "no review items are due");
    assert!(check_review_plan_start(false, 1).is_ok());
}

#[test]
fn review_plan_moment_is_never_before_zero() {
    assert_eq!(review_plan_due_before(Some(-5)), 0);
    assert_eq!(review_plan_due_before(Some(1_234)), 1_234);
    assert!(review_plan_due_before(None) > 0);
}
