use zhiforge_knowledge::assessment::{normalize_strings, validate_judge_feedback, JudgeFeedback};

#[test]
fn judge_schema_accepts_grounded_three_way_feedback() {
    let judged = JudgeFeedback {
        result: "partial".into(),
        correct_points: vec!["understood A".into()],
        missing_points: vec!["missed B".into()],
        wrong_points: Vec::new(),
        feedback: "You understood A but missed B.".into(),
        evidence: vec!["source quote".into()],
    };
    assert!(validate_judge_feedback(judged, &["source quote".into()]).is_ok());
}

#[test]
fn judge_schema_rejects_invented_evidence() {
    let judged = JudgeFeedback {
        result: "wrong".into(),
        correct_points: Vec::new(),
        missing_points: vec!["point".into()],
        wrong_points: vec!["wrong".into()],
        feedback: "Wrong because the source says otherwise.".into(),
        evidence: vec!["invented quote".into()],
    };
    assert!(validate_judge_feedback(judged, &["real quote".into()]).is_err());
}

fn feedback(result: &str, text: &str, evidence: Vec<String>) -> JudgeFeedback {
    JudgeFeedback {
        result: result.into(),
        correct_points: vec![" a ".into(), "a".into(), "".into()],
        missing_points: vec![],
        wrong_points: vec![],
        feedback: text.into(),
        evidence,
    }
}

#[test]
fn judge_feedback_is_normalized() {
    let r = validate_judge_feedback(feedback(" CORRECT ", " fine ", vec![" q ".into(), "q".into()]), &["q".into()]).unwrap();
    assert_eq!(r.result, "correct");
    assert_eq!(r.feedback, "fine");
    assert_eq!(r.correct_points, vec!["a".to_string()]);
    assert_eq!(r.evidence, vec!["q".to_string()]);
}

#[test]
fn judge_feedback_errors_name_the_rule() {
    let allowed = vec!["q".to_string()];
    assert_eq!(validate_judge_feedback(feedback("maybe", "x", vec!["q".into()]), &allowed).unwrap_err(), "result must be correct, partial, or wrong");
    assert_eq!(validate_judge_feedback(feedback("wrong", "  ", vec!["q".into()]), &allowed).unwrap_err(), "feedback is empty or too long");
    assert_eq!(validate_judge_feedback(feedback("wrong", "x", vec![" ".into()]), &allowed).unwrap_err(), "judge evidence is empty");
    assert_eq!(validate_judge_feedback(feedback("wrong", "x", vec!["z".into()]), &allowed).unwrap_err(), "judge evidence is not one of the supplied source quotes");
}

#[test]
fn judge_strings_keep_the_first_items() {
    let r = normalize_strings(vec!["b".into(), " a".into(), "b ".into(), "c".into()], 2, 10);
    assert_eq!(r, vec!["b".to_string(), "a".to_string()]);
}

use zhiforge_knowledge::assessment::attempt_input;

#[test]
fn attempts_need_a_question_and_a_bounded_answer() {
    assert_eq!(
        attempt_input(" q1 ", "  my answer ").unwrap(),
        ("q1".to_string(), "my answer".to_string())
    );
    assert_eq!(attempt_input("  ", "answer").unwrap_err(), "question id is empty");
    assert_eq!(attempt_input("q1", " \t").unwrap_err(), "answer is empty");
    assert_eq!(attempt_input("q1", &"a".repeat(20_001)).unwrap_err(), "answer is too large");
    assert!(attempt_input("q1", &"答".repeat(20_000)).is_ok());
}

use zhiforge_knowledge::assessment::judged_evidence_ids;

fn ev(id: &str, text: &str) -> (String, String) {
    (id.to_string(), text.to_string())
}

#[test]
fn judged_quotes_keep_their_evidence_ids() {
    let evidence = vec![ev("e1", "alpha"), ev("e2", "beta"), ev("e3", "alpha")];
    let quotes = vec!["beta".to_string(), "gamma".to_string(), "alpha".to_string()];
    assert_eq!(judged_evidence_ids(&quotes, &evidence).unwrap(), vec!["e2".to_string(), "e1".to_string()]);
    assert_eq!(
        judged_evidence_ids(&vec!["gamma".to_string()], &evidence).unwrap_err(),
        "judge result lost all evidence links"
    );
}
