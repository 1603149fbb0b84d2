//! Review sessions and the mastery rules applied to judged answers, review
//! plans, and the revision that ties a plan to its queue.
use vstd::prelude::*;
use vstd::bytes::{spec_u64_to_le_bytes, u64_to_le_bytes};
use vstd::utf8::encode_utf8;
use crate::capture::{lower_hex, now_ms, sha256, sha256_hex};
use crate::text::{char_count, contains_string, decimal, decimal_string, push_str, string_views, take_chars, take_str, trim, trim_str, trim_take_str, str_eq};

verus! {

/// One item of a review session.
#[derive(Clone, Debug)]
pub struct ReviewSessionItemRecord {
    pub position: i64,
    pub knowledge_unit_id: String,
    pub question_id: String,
    pub status: String,
    pub completed_at: Option<i64>,
    pub core_claim: String,
    pub selected_text: String,
    pub platform: String,
    pub title: Option<String>,
    pub author: Option<String>,
    pub mastery_score: i64,
    pub wrong_count: i64,
    pub review_count: i64,
    pub next_review_at: i64,
}

/// A review session with its items.
#[derive(Clone, Debug)]
pub struct ReviewSessionDetail {
    pub id: String,
    pub status: String,
    pub due_before: i64,
    pub item_count: i64,
    pub completed_count: i64,
    pub skipped_count: i64,
    pub started_at: i64,
    pub updated_at: i64,
    pub ended_at: Option<i64>,
    pub items: Vec<ReviewSessionItemRecord>,
}

/// A past review session, without its items.
#[derive(Clone, Debug)]
pub struct ReviewSessionSummary {
    pub id: String,
    pub status: String,
    pub item_count: i64,
    pub completed_count: i64,
    pub skipped_count: i64,
    pub started_at: i64,
    pub ended_at: Option<i64>,
}

/// The change of mastery that a judged answer brings.
pub open spec fn mastery_delta_of(result: Seq<char>) -> Option<int> {
    if result == "correct"@ {
        Some(15)
    } else if result == "partial"@ {
        Some(5)
    } else if result == "wrong"@ {
        Some(-10)
    } else {
        None
    }
}

pub open spec fn clamp_score(score: int) -> int {
    if score < 0 {
        0
    } else if score > 100 {
        100
    } else {
        score
    }
}

/// The learning level of a mastery score, clamped to 0..=100 first:
/// 0 below 40, 1 below 70, 2 below 90, 3 from 90.
pub open spec fn mastery_level(score: int) -> int {
    let s = clamp_score(score);
    if s <= 39 {
        0
    } else if s <= 69 {
        1
    } else if s <= 89 {
        2
    } else {
        3
    }
}

/// The name of a learning level.
pub open spec fn level_name(level: int) -> Seq<char> {
    if level == 0 {
        "weak"@
    } else if level == 1 {
        "learning"@
    } else if level == 2 {
        "reviewing"@
    } else {
        "mastered"@
    }
}

/// The learning status of a mastery score.
pub open spec fn mastery_status(score: int) -> Seq<char> {
    level_name(mastery_level(score))
}

/// The mastery score after a judged answer.
pub open spec fn mastery_after(score: int, result: Seq<char>) -> Option<int> {
    match mastery_delta_of(result) {
        Some(d) => Some(clamp_score(score + d)),
        None => None,
    }
}

/// A higher mastery score never has a lower learning level.
pub proof fn lemma_status_monotone(a: int, b: int)
    requires
        a <= b,
    ensures
        mastery_level(a) <= mastery_level(b),
{
}

/// Judgements keep mastery within 0..=100 and are ordered: a correct answer
/// leaves at least the mastery of a partial one, which leaves at least that
/// of a wrong one.
pub proof fn lemma_judgement_order(score: int)
    ensures
        mastery_after(score, "correct"@) matches Some(c) && mastery_after(score, "partial"@)
            matches Some(p) && mastery_after(score, "wrong"@) matches Some(w) && 0 <= w <= p <= c
            <= 100,
{
    reveal_strlit("correct");
    reveal_strlit("partial");
    reveal_strlit("wrong");
    assert("partial"@[0] != "correct"@[0]);
    assert("wrong"@.len() != "correct"@.len());
    assert("wrong"@.len() != "partial"@.len());
}

/// A review session id, trimmed; an error when it is blank.
pub fn required_session_id(value: &str) -> (r: Result<String, String>)
    ensures
        match r {
            Ok(t) => trim(value@).len() > 0 && t@ == trim(value@),
            Err(e) => trim(value@).len() == 0 && e@ == "review session id is empty"@,
        },
{
    let t = trim_str(value);
    if char_count(t.as_str()) == 0 {
        Err("review session id is empty".to_string())
    } else {
        Ok(t)
    }
}

/// The first `max_chars` characters.
pub fn bounded_text(value: &str, max_chars: usize) -> (r: String)
    ensures
        r@ == take_chars(value@, max_chars as int),
{
    take_str(value, max_chars)
}

/// The mastery change of a judged answer: +15 correct, +5 partial, −10 wrong.
pub fn mastery_delta(result: &str) -> (r: Result<i64, String>)
    ensures
        match r {
            Ok(d) => mastery_delta_of(result@) == Some(d as int),
            Err(e) => mastery_delta_of(result@) is None && e@ == "unsupported judgement result"@,
        },
{
    if str_eq(result, "correct") {
        Ok(15)
    } else if str_eq(result, "partial") {
        Ok(5)
    } else if str_eq(result, "wrong") {
        Ok(-10)
    } else {
        Err("unsupported judgement result".to_string())
    }
}

/// The mastery score and learning status after a judged answer: the score
/// moves by the judgement's delta and is kept within 0..=100.
pub fn judged_mastery(current: i64, result: &str) -> (r: Result<(i64, &'static str), String>)
    requires
        i64::MIN + 10 <= current <= i64::MAX - 15,
    ensures
        match r {
            Ok((m, s)) => mastery_after(current as int, result@) == Some(m as int) && s@
                == mastery_status(m as int),
            Err(e) => mastery_after(current as int, result@) is None && e@
                == "unsupported judgement result"@,
        },
{
    let delta = match mastery_delta(result) {
        Ok(d) => d,
        Err(e) => return Err(e),
    };
    let raw = current + delta;
    let next = if raw < 0 {
        0
    } else if raw > 100 {
        100
    } else {
        raw
    };
    Ok((next, status_for_mastery(next)))
}

/// The learning status of a mastery score: weak below 40, learning below 70,
/// reviewing below 90, mastered from 90 (scores clamped to 0..=100).
pub fn status_for_mastery(score: i64) -> (r: &'static str)
    ensures
        r@ == mastery_status(score as int),
{
    let s = if score < 0 {
        0
    } else if score > 100 {
        100
    } else {
        score
    };
    if s <= 39 {
        "weak"
    } else if s <= 69 {
        "learning"
    } else if s <= 89 {
        "reviewing"
    } else {
        "mastered"
    }
}


// ---------------------------------------------------------------------------
// Review plans
// ---------------------------------------------------------------------------

/// One item of a review plan: a due piece of knowledge and why it is
/// (or is not) reviewed now.
#[derive(Clone, Debug)]
pub struct ReviewPlanDecision {
    pub knowledge_id: String,
    pub reason: String,
}

/// A review plan: the items selected for this session and those deferred.
#[derive(Clone, Debug)]
pub struct ReviewPlanOutput {
    pub summary: String,
    pub selected: Vec<ReviewPlanDecision>,
    pub deferred: Vec<ReviewPlanDecision>,
}

pub open spec fn plan_decision_views(v: Seq<ReviewPlanDecision>) -> Seq<(Seq<char>, Seq<char>)> {
    v.map_values(|d: ReviewPlanDecision| (d.knowledge_id@, d.reason@))
}

/// The plan's decisions, selected then deferred, checked in turn: each
/// names a supplied candidate by its trimmed id, at most once, with a
/// reason that is not empty once trimmed and cut to 180 characters.
pub open spec fn checked_plan_decisions(ds: Seq<(Seq<char>, Seq<char>)>, allowed: Seq<Seq<char>>) -> Result<
    Seq<(Seq<char>, Seq<char>)>,
    Seq<char>,
>
    decreases ds.len(),
{
    if ds.len() == 0 {
        Ok(Seq::empty())
    } else {
        match checked_plan_decisions(ds.drop_last(), allowed) {
            Err(e) => Err(e),
            Ok(acc) => {
                let id = trim(ds.last().0);
                let reason = take_chars(trim(ds.last().1), 180);
                if reason.len() == 0 {
                    Err("review plan reason is empty"@)
                } else if !allowed.contains(id) {
                    Err("review plan referenced an unknown knowledge id"@)
                } else if exists|k: int| 0 <= k < acc.len() && (#[trigger] acc[k]).0 == id {
                    Err("review plan repeated a knowledge id"@)
                } else {
                    Ok(acc.push((id, reason)))
                }
            },
        }
    }
}

/// The summary of a validated plan: trimmed and cut to 360 characters, or
/// a default naming how many items are selected.
pub open spec fn plan_summary(summary: Seq<char>, target_count: nat) -> Seq<char> {
    let s = take_chars(trim(summary), 360);
    if s.len() == 0 {
        "优先复习 "@ + decimal(target_count) + " 条，其余保留在到期队列。"@
    } else {
        s
    }
}

/// A review plan validated against its candidates: exactly `target_count`
/// selected, every candidate classified exactly once (see
/// `checked_plan_decisions`), the candidates distinct; the result is the
/// summary and the normalized selected and deferred decisions.
pub open spec fn validated_review_plan(
    summary: Seq<char>,
    selected: Seq<(Seq<char>, Seq<char>)>,
    deferred: Seq<(Seq<char>, Seq<char>)>,
    target_count: nat,
    candidates: Seq<Seq<char>>,
) -> Result<(Seq<char>, Seq<(Seq<char>, Seq<char>)>, Seq<(Seq<char>, Seq<char>)>), Seq<char>> {
    if selected.len() != target_count {
        Err("review plan must select exactly "@ + decimal(target_count) + " items"@)
    } else if selected.len() + deferred.len() != candidates.len() {
        Err("review plan must classify every supplied candidate exactly once"@)
    } else {
        match checked_plan_decisions(selected + deferred, candidates) {
            Err(e) => Err(e),
            Ok(all) => if !candidates.no_duplicates() {
                Err("review plan omitted a supplied candidate"@)
            } else {
                Ok(
                    (
                        plan_summary(summary, target_count),
                        all.take(selected.len() as int),
                        all.skip(selected.len() as int),
                    ),
                )
            },
        }
    }
}

/// A rejected plan decision rejects every longer list that starts with it.
pub proof fn lemma_checked_plan_err_prefix(
    ds: Seq<(Seq<char>, Seq<char>)>,
    allowed: Seq<Seq<char>>,
    i: int,
)
    requires
        0 <= i <= ds.len(),
        checked_plan_decisions(ds.take(i), allowed) is Err,
    ensures
        checked_plan_decisions(ds, allowed) == checked_plan_decisions(ds.take(i), allowed),
    decreases ds.len() - i,
{
    if i < ds.len() {
        assert(ds.take(i + 1).drop_last() =~= ds.take(i));
        lemma_checked_plan_err_prefix(ds, allowed, i + 1);
    } else {
        assert(ds.take(i) =~= ds);
    }
}

/// Checked plan decisions keep their number.
pub proof fn lemma_checked_plan_len(ds: Seq<(Seq<char>, Seq<char>)>, allowed: Seq<Seq<char>>)
    ensures
        checked_plan_decisions(ds, allowed) matches Ok(all) ==> all.len() == ds.len(),
    decreases ds.len(),
{
    if ds.len() > 0 {
        lemma_checked_plan_len(ds.drop_last(), allowed);
    }
}

/// Whether the ids are pairwise distinct.
fn all_distinct(ids: &Vec<String>) -> (r: bool)
    ensures
        r == string_views(ids@).no_duplicates(),
{
    let ghost v = string_views(ids@);
    let n = ids.len();
    let mut i: usize = 0;
    while i < n
        invariant
            n == ids@.len(),
            v == string_views(ids@),
            i <= n,
            forall|a: int, b: int| 0 <= a < b < i ==> v[a] != v[b],
        decreases n - i,
    {
        let mut j: usize = 0;
        while j < i
            invariant
                n == ids@.len(),
                v == string_views(ids@),
                i < n,
                j <= i,
                forall|a: int, b: int| 0 <= a < b < i ==> v[a] != v[b],
                forall|a: int| 0 <= a < j ==> v[a] != v[i as int],
            decreases i - j,
        {
            if str_eq(ids[j].as_str(), ids[i].as_str()) {
                assert(v[j as int] == v[i as int]);
                return false;
            }
            j = j + 1;
        }
        i = i + 1;
    }
    true
}

/// Validates a review plan against the candidates it was asked to order
/// (see `validated_review_plan`).
pub fn validate_review_plan_output(
    output: ReviewPlanOutput,
    target_count: usize,
    candidate_ids: &Vec<String>,
) -> (r: Result<ReviewPlanOutput, String>)
    ensures
        match r {
            Ok(o) => validated_review_plan(
                output.summary@,
                plan_decision_views(output.selected@),
                plan_decision_views(output.deferred@),
                target_count as nat,
                string_views(candidate_ids@),
            ) == Ok::<
                (Seq<char>, Seq<(Seq<char>, Seq<char>)>, Seq<(Seq<char>, Seq<char>)>),
                Seq<char>,
            >((o.summary@, plan_decision_views(o.selected@), plan_decision_views(o.deferred@))),
            Err(e) => validated_review_plan(
                output.summary@,
                plan_decision_views(output.selected@),
                plan_decision_views(output.deferred@),
                target_count as nat,
                string_views(candidate_ids@),
            ) == Err::<
                (Seq<char>, Seq<(Seq<char>, Seq<char>)>, Seq<(Seq<char>, Seq<char>)>),
                Seq<char>,
            >(e@),
        },
{
    let ghost sv = plan_decision_views(output.selected@);
    let ghost dv = plan_decision_views(output.deferred@);
    let ghost av = string_views(candidate_ids@);
    let selected_len = output.selected.len();
    if selected_len != target_count {
        let mut message = "review plan must select exactly ".to_string();
        let number = decimal_string(target_count);
        push_str(&mut message, number.as_str());
        push_str(&mut message, " items");
        return Err(message);
    }
    let deferred_len = output.deferred.len();
    if deferred_len > candidate_ids.len() || selected_len != candidate_ids.len() - deferred_len {
        return Err("review plan must classify every supplied candidate exactly once".to_string());
    }
    let mut all = output.selected;
    let mut rest = output.deferred;
    all.append(&mut rest);
    assert(plan_decision_views(all@) =~= sv + dv);
    let ghost ds = sv + dv;
    let mut checked: Vec<ReviewPlanDecision> = Vec::new();
    let mut seen: Vec<String> = Vec::new();
    let n = all.len();
    let mut i: usize = 0;
    assert(ds.take(0) =~= Seq::<(Seq<char>, Seq<char>)>::empty());
    assert(plan_decision_views(checked@) =~= Seq::<(Seq<char>, Seq<char>)>::empty());
    while i < n
        invariant
            n == all@.len(),
            ds == plan_decision_views(all@),
            ds == sv + dv,
            av == string_views(candidate_ids@),
            sv.len() == target_count,
            sv.len() + dv.len() == av.len(),
            sv == plan_decision_views(output.selected@),
            dv == plan_decision_views(output.deferred@),
            i <= n,
            checked_plan_decisions(ds.take(i as int), av) == Ok::<
                Seq<(Seq<char>, Seq<char>)>,
                Seq<char>,
            >(plan_decision_views(checked@)),
            seen@.len() == checked@.len(),
            forall|k: int| 0 <= k < checked@.len() ==> (#[trigger] seen@[k])@ == checked@[k].knowledge_id@,
        decreases n - i,
    {
        proof {
            let post = ds.take(i + 1);
            assert(post.drop_last() =~= ds.take(i as int));
            assert(post.last() == ds[i as int]);
        }
        let ghost done = plan_decision_views(checked@);
        let id = trim_str(all[i].knowledge_id.as_str());
        let reason = trim_take_str(all[i].reason.as_str(), 180);
        if char_count(reason.as_str()) == 0 {
            proof {
                lemma_checked_plan_err_prefix(ds, av, i + 1);
            }
            return Err("review plan reason is empty".to_string());
        }
        if !contains_string(candidate_ids, &id) {
            proof {
                lemma_checked_plan_err_prefix(ds, av, i + 1);
            }
            return Err("review plan referenced an unknown knowledge id".to_string());
        }
        if contains_string(&seen, &id) {
            proof {
                let k = choose|k: int|
                    0 <= k < string_views(seen@).len() && string_views(seen@)[k] == id@;
                assert(seen@[k]@ == id@);
                assert(done[k].0 == id@);
                lemma_checked_plan_err_prefix(ds, av, i + 1);
            }
            return Err("review plan repeated a knowledge id".to_string());
        }
        proof {
            assert forall|k: int| 0 <= k < done.len() implies (#[trigger] done[k]).0 != id@ by {
                assert(string_views(seen@)[k] == seen@[k]@);
            }
        }
        seen.push(id.clone());
        checked.push(ReviewPlanDecision { knowledge_id: id, reason });
        assert(plan_decision_views(checked@) =~= done.push(
            (checked@.last().knowledge_id@, checked@.last().reason@),
        ));
        i = i + 1;
    }
    assert(ds.take(n as int) =~= ds);
    if !all_distinct(candidate_ids) {
        return Err("review plan omitted a supplied candidate".to_string());
    }
    proof {
        lemma_checked_plan_len(ds, av);
    }
    let ghost whole = checked@;
    let deferred = checked.split_off(selected_len);
    assert(plan_decision_views(checked@) =~= plan_decision_views(whole).take(selected_len as int));
    assert(plan_decision_views(deferred@) =~= plan_decision_views(whole).skip(selected_len as int));
    let trimmed = trim_take_str(output.summary.as_str(), 360);
    let summary = if char_count(trimmed.as_str()) == 0 {
        let mut s = "优先复习 ".to_string();
        let number = decimal_string(target_count);
        push_str(&mut s, number.as_str());
        push_str(&mut s, " 条，其余保留在到期队列。");
        s
    } else {
        trimmed
    };
    Ok(ReviewPlanOutput { summary, selected: checked, deferred })
}


/// A day in milliseconds.
pub const DAY_MS: i64 = 86400000;

/// The most items one planned session holds.
pub const REVIEW_PLAN_SESSION_LIMIT: u32 = 20;

/// A due item of the review queue, as the planner sees it. Whether its
/// memory stability is below one is judged by the caller.
#[derive(Clone, Debug)]
pub struct PlanQueueItem {
    pub knowledge_unit_id: String,
    pub status: String,
    pub review_count: i64,
    pub lapse_count: i64,
    pub wrong_count: i64,
    pub next_review_at: i64,
    pub low_stability: bool,
}

/// The plan the queue alone decides, or what is left for the ranking
/// assistant: the first-learning items, which come first, and how many of
/// the other due items it is to select.
#[derive(Clone, Debug)]
pub enum LocalPlan {
    Ready(ReviewPlanOutput),
    NeedsRanking { first_learning: Vec<String>, remaining_count: usize },
}

/// The reason given for a first-learning item that is selected.
pub open spec fn first_learning_reason() -> Seq<char> {
    "首次学习，先完成第一次理解检验"@
}

/// Why an item is due, by the first rule that applies: weak status, two or
/// more lapses, low stability, earlier wrong answers, overdue by a day.
pub open spec fn local_reason(item: PlanQueueItem, due_before: i64) -> Seq<char> {
    if item.status@ == "weak"@ {
        "薄弱知识优先巩固"@
    } else if item.lapse_count >= 2 {
        "多次遗忘，优先重新巩固"@
    } else if item.low_stability {
        "记忆稳定度较低"@
    } else if item.wrong_count > 0 {
        "存在历史错误记录"@
    } else if due_before - item.next_review_at >= DAY_MS {
        "已逾期一天以上"@
    } else {
        "已到复习时间"@
    }
}

/// The ids of the items learned for the first time (never reviewed), in
/// queue order.
pub open spec fn first_learning_ids(q: Seq<PlanQueueItem>) -> Seq<Seq<char>>
    decreases q.len(),
{
    if q.len() == 0 {
        Seq::empty()
    } else if q.last().review_count == 0 {
        first_learning_ids(q.drop_last()).push(q.last().knowledge_unit_id@)
    } else {
        first_learning_ids(q.drop_last())
    }
}

/// Every item selected, each with its local reason.
pub open spec fn all_selected(q: Seq<PlanQueueItem>, due_before: i64) -> Seq<(Seq<char>, Seq<char>)> {
    q.map_values(|item: PlanQueueItem| (item.knowledge_unit_id@, local_reason(item, due_before)))
}

/// The items whose id is among `chosen`, with the first-learning reason.
pub open spec fn chosen_items(q: Seq<PlanQueueItem>, chosen: Seq<Seq<char>>) -> Seq<(Seq<char>, Seq<char>)>
    decreases q.len(),
{
    if q.len() == 0 {
        Seq::empty()
    } else if chosen.contains(q.last().knowledge_unit_id@) {
        chosen_items(q.drop_last(), chosen).push((q.last().knowledge_unit_id@, first_learning_reason()))
    } else {
        chosen_items(q.drop_last(), chosen)
    }
}

/// The items whose id is not among `chosen`, with why they wait.
pub open spec fn waiting_items(q: Seq<PlanQueueItem>, chosen: Seq<Seq<char>>) -> Seq<(Seq<char>, Seq<char>)>
    decreases q.len(),
{
    if q.len() == 0 {
        Seq::empty()
    } else if chosen.contains(q.last().knowledge_unit_id@) {
        waiting_items(q.drop_last(), chosen)
    } else {
        waiting_items(q.drop_last(), chosen).push(
            (
                q.last().knowledge_unit_id@,
                if q.last().review_count == 0 {
                    "首次学习任务超出本次容量，保留到下一轮"@
                } else {
                    "本次容量优先留给首次学习"@
                },
            ),
        )
    }
}

/// The plan the queue decides by itself, for a session of `target`
/// items: everything when it all fits; else, when there are at least as
/// many first-learning items, the first of them; else `None`, and the
/// rest is ranked.
pub open spec fn local_plan_of(q: Seq<PlanQueueItem>, target: nat, due_before: i64) -> Option<
    (Seq<char>, Seq<(Seq<char>, Seq<char>)>, Seq<(Seq<char>, Seq<char>)>),
> {
    if q.len() <= target {
        Some(
            (
                "当前有 "@ + decimal(q.len()) + " 条待学习/复习任务，全部纳入本次。"@,
                all_selected(q, due_before),
                Seq::empty(),
            ),
        )
    } else if first_learning_ids(q).len() >= target {
        let chosen = first_learning_ids(q).take(target as int);
        Some(
            (
                "本次优先完成 "@ + decimal(target) + " 条首次学习任务。"@,
                chosen_items(q, chosen),
                waiting_items(q, chosen),
            ),
        )
    } else {
        None
    }
}

/// When the whole queue fits the session, every due item is selected in
/// queue order, each with the reason it is due (a weak item because it is
/// weak), and nothing is deferred.
pub proof fn lemma_whole_queue_selected_in_order(q: Seq<PlanQueueItem>, target: nat, due_before: i64)
    requires
        q.len() <= target,
    ensures
        local_plan_of(q, target, due_before) matches Some((summary, selected, deferred)) && selected.len()
            == q.len() && deferred.len() == 0 && forall|k: int|
            0 <= k < q.len() ==> (#[trigger] selected[k]).0 == q[k].knowledge_unit_id@
                && selected[k].1 == local_reason(q[k], due_before) && (q[k].status@ == "weak"@
                ==> selected[k].1 == "薄弱知识优先巩固"@),
{
}

/// Why an item is due (see `local_reason`).
pub fn local_priority_reason(item: &PlanQueueItem, due_before: i64) -> (r: String)
    ensures
        r@ == local_reason(*item, due_before),
{
    if str_eq(item.status.as_str(), "weak") {
        return "薄弱知识优先巩固".to_string();
    }
    if item.lapse_count >= 2 {
        return "多次遗忘，优先重新巩固".to_string();
    }
    if item.low_stability {
        return "记忆稳定度较低".to_string();
    }
    if item.wrong_count > 0 {
        return "存在历史错误记录".to_string();
    }
    let overdue: i128 = due_before as i128 - item.next_review_at as i128;
    if overdue >= DAY_MS as i128 {
        return "已逾期一天以上".to_string();
    }
    "已到复习时间".to_string()
}

/// A review plan is previewed only while no review session is active, and
/// only when some item is due.
pub fn check_review_plan_start(has_active_session: bool, due_count: usize) -> (r: Result<
    (),
    String,
>)
    ensures
        has_active_session ==> (r matches Err(e) && e@
            == "an active review session already exists"@),
        !has_active_session && due_count == 0 ==> (r matches Err(e) && e@
            == "no review items are due"@),
        !has_active_session && due_count > 0 ==> r is Ok,
{
    if has_active_session {
        Err("an active review session already exists".to_string())
    } else if due_count == 0 {
        Err("no review items are due".to_string())
    } else {
        Ok(())
    }
}

/// The moment up to which a review plan takes due items: the given one or,
/// when none is given, the current time; never before 0.
pub fn review_plan_due_before(due_before: Option<i64>) -> (r: i64)
    ensures
        r >= 0,
        due_before matches Some(d) ==> r == (if d < 0 {
            0
        } else {
            d
        }),
{
    let moment = match due_before {
        Some(d) => d,
        None => now_ms(),
    };
    if moment < 0 {
        0
    } else {
        moment
    }
}

/// The size of a planned session: 20 when unset, else kept within 1..=20.
pub fn plan_session_limit(limit: Option<u32>) -> (r: usize)
    ensures
        r == (match limit {
            None => 20,
            Some(l) => if l < 1 {
                1
            } else if l > 20 {
                20
            } else {
                l as int
            },
        }),
{
    match limit {
        None => 20,
        Some(l) => if l < 1 {
            1
        } else if l > REVIEW_PLAN_SESSION_LIMIT {
            20
        } else {
            l as usize
        },
    }
}

/// The plan the queue decides by itself (see `local_plan_of`), or the
/// first-learning ids and how many other items are left to rank.
pub fn local_review_plan(queue: &Vec<PlanQueueItem>, session_limit: usize, due_before: i64) -> (r:
    LocalPlan)
    ensures
        match r {
            LocalPlan::Ready(o) => local_plan_of(
                queue@,
                (if session_limit < queue@.len() {
                    session_limit as nat
                } else {
                    queue@.len()
                }),
                due_before,
            ) == Some((o.summary@, plan_decision_views(o.selected@), plan_decision_views(o.deferred@))),
            LocalPlan::NeedsRanking { first_learning, remaining_count } => local_plan_of(
                queue@,
                (if session_limit < queue@.len() {
                    session_limit as nat
                } else {
                    queue@.len()
                }),
                due_before,
            ) is None && string_views(first_learning@) == first_learning_ids(queue@)
                && remaining_count == (if session_limit < queue@.len() {
                session_limit as nat
            } else {
                queue@.len()
            }) - first_learning_ids(queue@).len(),
        },
{
    let n = queue.len();
    let target = if session_limit < n {
        session_limit
    } else {
        n
    };
    if n <= target {
        let mut selected: Vec<ReviewPlanDecision> = Vec::new();
        let mut i: usize = 0;
        while i < n
            invariant
                n == queue@.len(),
                i <= n,
                selected@.len() == i,
                plan_decision_views(selected@) == all_selected(queue@, due_before).take(i as int),
            decreases n - i,
        {
            let reason = local_priority_reason(&queue[i], due_before);
            selected.push(
                ReviewPlanDecision { knowledge_id: queue[i].knowledge_unit_id.clone(), reason },
            );
            assert(plan_decision_views(selected@) =~= all_selected(queue@, due_before).take(i + 1));
            i = i + 1;
        }
        assert(all_selected(queue@, due_before).take(n as int) =~= all_selected(queue@, due_before));
        let mut summary = "当前有 ".to_string();
        let number = decimal_string(n);
        push_str(&mut summary, number.as_str());
        push_str(&mut summary, " 条待学习/复习任务，全部纳入本次。");
        let deferred: Vec<ReviewPlanDecision> = Vec::new();
        assert(plan_decision_views(deferred@) =~= Seq::<(Seq<char>, Seq<char>)>::empty());
        return LocalPlan::Ready(ReviewPlanOutput { summary, selected, deferred });
    }
    let mut first: Vec<String> = Vec::new();
    let mut i: usize = 0;
    assert(queue@.take(0) =~= Seq::<PlanQueueItem>::empty());
    while i < n
        invariant
            n == queue@.len(),
            i <= n,
            string_views(first@) == first_learning_ids(queue@.take(i as int)),
        decreases n - i,
    {
        assert(queue@.take(i + 1).drop_last() =~= queue@.take(i as int));
        if queue[i].review_count == 0 {
            let ghost before = string_views(first@);
            first.push(queue[i].knowledge_unit_id.clone());
            assert(string_views(first@) =~= before.push(first@.last()@));
        }
        i = i + 1;
    }
    assert(queue@.take(n as int) =~= queue@);
    if first.len() < target {
        let remaining_count = target - first.len();
        return LocalPlan::NeedsRanking { first_learning: first, remaining_count };
    }
    let mut chosen: Vec<String> = Vec::new();
    let mut c: usize = 0;
    while c < target
        invariant
            target <= first@.len(),
            c <= target,
            chosen@.len() == c,
            string_views(chosen@) == string_views(first@).take(c as int),
        decreases target - c,
    {
        chosen.push(first[c].clone());
        assert(string_views(chosen@) =~= string_views(first@).take(c + 1));
        c = c + 1;
    }
    let ghost cv = string_views(chosen@);
    let mut selected: Vec<ReviewPlanDecision> = Vec::new();
    let mut deferred: Vec<ReviewPlanDecision> = Vec::new();
    let mut j: usize = 0;
    assert(plan_decision_views(selected@) =~= Seq::<(Seq<char>, Seq<char>)>::empty());
    assert(plan_decision_views(deferred@) =~= Seq::<(Seq<char>, Seq<char>)>::empty());
    while j < n
        invariant
            n == queue@.len(),
            j <= n,
            cv == string_views(chosen@),
            plan_decision_views(selected@) == chosen_items(queue@.take(j as int), cv),
            plan_decision_views(deferred@) == waiting_items(queue@.take(j as int), cv),
        decreases n - j,
    {
        assert(queue@.take(j + 1).drop_last() =~= queue@.take(j as int));
        assert(queue@.take(j + 1).last() == queue@[j as int]);
        let item = &queue[j];
        if contains_string(&chosen, &item.knowledge_unit_id) {
            let ghost before = plan_decision_views(selected@);
            selected.push(
                ReviewPlanDecision {
                    knowledge_id: item.knowledge_unit_id.clone(),
                    reason: "首次学习，先完成第一次理解检验".to_string(),
                },
            );
            assert(plan_decision_views(selected@) =~= before.push(
                (selected@.last().knowledge_id@, selected@.last().reason@),
            ));
        } else {
            let ghost before = plan_decision_views(deferred@);
            let reason = if item.review_count == 0 {
                "首次学习任务超出本次容量，保留到下一轮".to_string()
            } else {
                "本次容量优先留给首次学习".to_string()
            };
            deferred.push(ReviewPlanDecision { knowledge_id: item.knowledge_unit_id.clone(), reason });
            assert(plan_decision_views(deferred@) =~= before.push(
                (deferred@.last().knowledge_id@, deferred@.last().reason@),
            ));
        }
        j = j + 1;
    }
    assert(queue@.take(n as int) =~= queue@);
    let mut summary = "本次优先完成 ".to_string();
    let number = decimal_string(target);
    push_str(&mut summary, number.as_str());
    push_str(&mut summary, " 条首次学习任务。");
    LocalPlan::Ready(ReviewPlanOutput { summary, selected, deferred })
}

/// The ranked plan completed: the first-learning items come first, then
/// the ranked selection; the summary names the first-learning items when
/// there are any.
pub fn finish_review_plan(first_learning: &Vec<String>, planned: ReviewPlanOutput) -> (r:
    ReviewPlanOutput)
    ensures
        plan_decision_views(r.selected@) == string_views(first_learning@).map_values(
            |id: Seq<char>| (id, first_learning_reason()),
        ) + plan_decision_views(planned.selected@),
        plan_decision_views(r.deferred@) == plan_decision_views(planned.deferred@),
        r.summary@ == (if first_learning@.len() == 0 {
            planned.summary@
        } else {
            "先学习 "@ + decimal(first_learning@.len()) + " 条新知识；"@ + planned.summary@
        }),
{
    let ghost fv = string_views(first_learning@).map_values(
        |id: Seq<char>| (id, first_learning_reason()),
    );
    let mut selected: Vec<ReviewPlanDecision> = Vec::new();
    let n = first_learning.len();
    let mut i: usize = 0;
    while i < n
        invariant
            n == first_learning@.len(),
            i <= n,
            selected@.len() == i,
            fv == string_views(first_learning@).map_values(
                |id: Seq<char>| (id, first_learning_reason()),
            ),
            plan_decision_views(selected@) == fv.take(i as int),
        decreases n - i,
    {
        selected.push(
            ReviewPlanDecision {
                knowledge_id: first_learning[i].clone(),
                reason: "首次学习，先完成第一次理解检验".to_string(),
            },
        );
        assert(plan_decision_views(selected@) =~= fv.take(i + 1));
        i = i + 1;
    }
    assert(fv.take(n as int) =~= fv);
    let ghost sv = plan_decision_views(selected@);
    let mut ranked = planned.selected;
    selected.append(&mut ranked);
    assert(plan_decision_views(selected@) =~= sv + plan_decision_views(planned.selected@));
    let summary = if n == 0 {
        planned.summary
    } else {
        let mut s = "先学习 ".to_string();
        let number = decimal_string(n);
        push_str(&mut s, number.as_str());
        push_str(&mut s, " 条新知识；");
        push_str(&mut s, planned.summary.as_str());
        s
    };
    ReviewPlanOutput { summary, selected, deferred: planned.deferred }
}


/// The ids of plan decisions.
pub open spec fn plan_ids(ds: Seq<(Seq<char>, Seq<char>)>) -> Seq<Seq<char>> {
    ds.map_values(|d: (Seq<char>, Seq<char>)| d.0)
}

/// Checked plan decisions keep their number, name only supplied candidates,
/// none twice, each with a reason.
pub proof fn lemma_checked_plan_sound(ds: Seq<(Seq<char>, Seq<char>)>, allowed: Seq<Seq<char>>)
    ensures
        checked_plan_decisions(ds, allowed) matches Ok(all) ==> all.len() == ds.len() && plan_ids(
            all,
        ).no_duplicates() && (forall|k: int|
            0 <= k < all.len() ==> allowed.contains((#[trigger] all[k]).0) && all[k].1.len() > 0),
    decreases ds.len(),
{
    if ds.len() > 0 {
        lemma_checked_plan_sound(ds.drop_last(), allowed);
        if let Ok(all) = checked_plan_decisions(ds, allowed) {
            let prev = checked_plan_decisions(ds.drop_last(), allowed)->Ok_0;
            assert(all == prev.push(all.last()));
            let ids = plan_ids(all);
            assert forall|a: int, b: int| 0 <= a < b < ids.len() implies ids[a] != ids[b] by {
                assert(ids[a] == prev[a].0);
                if b < prev.len() {
                    assert(ids[b] == prev[b].0);
                    assert(plan_ids(prev)[a] == prev[a].0);
                    assert(plan_ids(prev)[b] == prev[b].0);
                } else {
                    assert(ids[b] == all.last().0);
                }
            }
            assert forall|k: int| 0 <= k < all.len() implies allowed.contains((#[trigger] all[k]).0)
                && all[k].1.len() > 0 by {
                if k < prev.len() {
                    assert(all[k] == prev[k]);
                }
            }
        }
    }
}

/// A validated plan selects exactly `target_count` items, and its selected
/// and deferred items together are the candidates, each exactly once.
pub proof fn lemma_validated_review_plan_covers(
    summary: Seq<char>,
    selected: Seq<(Seq<char>, Seq<char>)>,
    deferred: Seq<(Seq<char>, Seq<char>)>,
    target_count: nat,
    candidates: Seq<Seq<char>>,
)
    ensures
        validated_review_plan(summary, selected, deferred, target_count, candidates) matches Ok(
            (s, sel, def),
        ) ==> sel.len() == target_count && plan_ids(sel + def).no_duplicates() && plan_ids(
            sel + def,
        ).to_set() == candidates.to_set(),
{
    if let Ok((s, sel, def)) = validated_review_plan(
        summary,
        selected,
        deferred,
        target_count,
        candidates,
    ) {
        let ds = selected + deferred;
        lemma_checked_plan_sound(ds, candidates);
        let all = checked_plan_decisions(ds, candidates)->Ok_0;
        assert(sel + def =~= all);
        let ids = plan_ids(all);
        assert forall|x: Seq<char>| ids.to_set().contains(x) implies candidates.to_set().contains(
            x,
        ) by {
            let k = choose|k: int| 0 <= k < ids.len() && ids[k] == x;
            assert(candidates.contains(all[k].0));
        }
        ids.unique_seq_to_set();
        candidates.unique_seq_to_set();
        vstd::set_lib::lemma_subset_equality(ids.to_set(), candidates.to_set());
    }
}


// ---------------------------------------------------------------------------
// The revision of a review queue
// ---------------------------------------------------------------------------

/// A due item as the revision of the queue reads it. The two scheduling
/// numbers that are floating point are given by their bit patterns
/// (`f64::to_bits`), whose little-endian bytes are those of the numbers.
#[derive(Clone, Debug)]
pub struct QueueRevisionItem {
    pub knowledge_unit_id: String,
    pub question_id: Option<String>,
    pub status: String,
    pub mastery_score: i64,
    pub wrong_count: i64,
    pub review_count: i64,
    pub next_review_at: i64,
    pub stability_bits: u64,
    pub difficulty_bits: u64,
    pub lapse_count: i64,
    pub scheduled_days: i64,
}

/// The little-endian bytes of a signed number (those of its two's-complement
/// bits).
pub open spec fn i64_le_bytes(v: i64) -> Seq<u8> {
    spec_u64_to_le_bytes(v as u64)
}

/// The bytes one item adds to the revision: its id, a zero byte, its
/// question id (nothing when it has none), its status, then its numbers in
/// order, each as eight little-endian bytes.
pub open spec fn revision_item_bytes(it: QueueRevisionItem) -> Seq<u8> {
    encode_utf8(it.knowledge_unit_id@) + seq![0u8] + encode_utf8(
        match it.question_id {
            Some(q) => q@,
            None => Seq::empty(),
        },
    ) + encode_utf8(it.status@) + i64_le_bytes(it.mastery_score) + i64_le_bytes(it.wrong_count)
        + i64_le_bytes(it.review_count) + i64_le_bytes(it.next_review_at) + spec_u64_to_le_bytes(
        it.stability_bits,
    ) + spec_u64_to_le_bytes(it.difficulty_bits) + i64_le_bytes(it.lapse_count) + i64_le_bytes(
        it.scheduled_days,
    )
}

/// The bytes the revision hashes: the due time, then each item in order.
pub open spec fn revision_bytes(due_before: i64, items: Seq<QueueRevisionItem>) -> Seq<u8>
    decreases items.len(),
{
    if items.len() == 0 {
        i64_le_bytes(due_before)
    } else {
        revision_bytes(due_before, items.drop_last()) + revision_item_bytes(items.last())
    }
}

fn append_bytes(out: &mut Vec<u8>, b: &[u8])
    ensures
        final(out)@ == old(out)@ + b@,
{
    let n = b.len();
    let mut i: usize = 0;
    while i < n
        invariant
            n == b@.len(),
            i <= n,
            out@ == old(out)@ + b@.take(i as int),
        decreases n - i,
    {
        out.push(b[i]);
        assert(b@.take(i + 1) =~= b@.take(i as int).push(b[i as int]));
        i = i + 1;
    }
    assert(b@.take(n as int) =~= b@);
}

fn append_i64(out: &mut Vec<u8>, v: i64)
    ensures
        final(out)@ == old(out)@ + i64_le_bytes(v),
{
    let b = u64_to_le_bytes(v as u64);
    append_bytes(out, b.as_slice());
}

fn append_u64(out: &mut Vec<u8>, v: u64)
    ensures
        final(out)@ == old(out)@ + spec_u64_to_le_bytes(v),
{
    let b = u64_to_le_bytes(v);
    append_bytes(out, b.as_slice());
}

fn append_str(out: &mut Vec<u8>, s: &str)
    ensures
        final(out)@ == old(out)@ + encode_utf8(s@),
{
    append_bytes(out, s.as_bytes());
}

/// The revision of a review queue: lowercase hexadecimal SHA-256 of its
/// bytes (see `revision_bytes`); a plan is applied only to the queue it was
/// made for.
pub fn review_queue_revision(due_before: i64, items: &Vec<QueueRevisionItem>) -> (r: String)
    ensures
        r@ == lower_hex(sha256(revision_bytes(due_before, items@))),
{
    let mut out: Vec<u8> = Vec::new();
    append_i64(&mut out, due_before);
    let n = items.len();
    let mut i: usize = 0;
    assert(out@ =~= i64_le_bytes(due_before));
    assert(items@.take(0) =~= Seq::<QueueRevisionItem>::empty());
    while i < n
        invariant
            n == items@.len(),
            i <= n,
            out@ == revision_bytes(due_before, items@.take(i as int)),
        decreases n - i,
    {
        let it = &items[i];
        let ghost start = out@;
        append_str(&mut out, it.knowledge_unit_id.as_str());
        out.push(0u8);
        match &it.question_id {
            Some(q) => append_str(&mut out, q.as_str()),
            None => {},
        }
        append_str(&mut out, it.status.as_str());
        append_i64(&mut out, it.mastery_score);
        append_i64(&mut out, it.wrong_count);
        append_i64(&mut out, it.review_count);
        append_i64(&mut out, it.next_review_at);
        append_u64(&mut out, it.stability_bits);
        append_u64(&mut out, it.difficulty_bits);
        append_i64(&mut out, it.lapse_count);
        append_i64(&mut out, it.scheduled_days);
        proof {
            assert(encode_utf8(Seq::<char>::empty()) =~= Seq::<u8>::empty());
            assert(out@ =~= start + revision_item_bytes(*it));
            assert(items@.take(i + 1).drop_last() =~= items@.take(i as int));
            assert(items@.take(i + 1).last() == *it);
        }
        i = i + 1;
    }
    assert(items@.take(n as int) =~= items@);
    sha256_hex(out.as_slice())
}


// ---------------------------------------------------------------------------
// Starting the planned session
// ---------------------------------------------------------------------------

/// A plan to start names its queue's revision and between 1 and 20 distinct
/// items; the revision is returned trimmed.
pub fn check_plan_selection(queue_revision: &str, selected_knowledge_ids: &Vec<String>) -> (r: Result<
    String,
    String,
>)
    ensures
        match r {
            Ok(rev) => rev@ == trim(queue_revision@) && rev@.len() > 0 && 1
                <= selected_knowledge_ids@.len() <= 20 && string_views(
                selected_knowledge_ids@,
            ).no_duplicates(),
            Err(e) => if trim(queue_revision@).len() == 0 {
                e@ == "review plan revision is empty"@
            } else if selected_knowledge_ids@.len() == 0 || selected_knowledge_ids@.len() > 20 {
                e@ == "review plan must select between 1 and 20 items"@
            } else {
                e@ == "review plan contains duplicate knowledge ids"@ && !string_views(
                    selected_knowledge_ids@,
                ).no_duplicates()
            },
        },
{
    let rev = trim_str(queue_revision);
    if char_count(rev.as_str()) == 0 {
        return Err("review plan revision is empty".to_string());
    }
    if selected_knowledge_ids.len() == 0 || selected_knowledge_ids.len() > 20 {
        return Err("review plan must select between 1 and 20 items".to_string());
    }
    if !all_distinct(selected_knowledge_ids) {
        return Err("review plan contains duplicate knowledge ids".to_string());
    }
    Ok(rev)
}

/// A plan starts only on the queue it was made for.
pub fn check_plan_revision(current: &str, expected: &str) -> (r: Result<(), String>)
    ensures
        match r {
            Ok(()) => current@ == expected@,
            Err(e) => e@ == "review plan is stale; refresh the plan before starting"@ && current@
                != expected@,
        },
{
    if str_eq(current, expected) {
        Ok(())
    } else {
        Err("review plan is stale; refresh the plan before starting".to_string())
    }
}

/// The first position of the id in the queue's ids.
pub open spec fn first_position(ids: Seq<Seq<char>>, id: Seq<char>, p: int) -> bool {
    0 <= p < ids.len() && ids[p] == id && forall|k: int| 0 <= k < p ==> ids[k] != id
}

fn first_index(ids: &Vec<String>, id: &String) -> (r: Option<usize>)
    ensures
        match r {
            Some(p) => first_position(string_views(ids@), id@, p as int),
            None => !string_views(ids@).contains(id@),
        },
{
    let ghost v = string_views(ids@);
    let n = ids.len();
    let mut i: usize = 0;
    while i < n
        invariant
            n == ids@.len(),
            v == string_views(ids@),
            i <= n,
            forall|k: int| 0 <= k < i ==> v[k] != id@,
        decreases n - i,
    {
        assert(v[i as int] == ids@[i as int]@);
        if str_eq(ids[i].as_str(), id.as_str()) {
            return Some(i);
        }
        i = i + 1;
    }
    None
}

/// The queue positions of the selected items, in the order selected: each
/// the first item with that id; an id that is no longer due is an error.
pub fn selected_positions(queue_ids: &Vec<String>, selected_knowledge_ids: &Vec<String>) -> (r: Result<
    Vec<usize>,
    String,
>)
    ensures
        match r {
            Ok(ps) => ps@.len() == selected_knowledge_ids@.len() && forall|k: int|
                0 <= k < ps@.len() ==> first_position(
                    string_views(queue_ids@),
                    selected_knowledge_ids@[k]@,
                    #[trigger] ps@[k] as int,
                ),
            Err(e) => e@ == "review plan references an item that is no longer due"@ && exists|k: int|
                0 <= k < selected_knowledge_ids@.len() && !string_views(queue_ids@).contains(
                    #[trigger] selected_knowledge_ids@[k]@,
                ),
        },
{
    let mut ps: Vec<usize> = Vec::new();
    let n = selected_knowledge_ids.len();
    let mut i: usize = 0;
    while i < n
        invariant
            n == selected_knowledge_ids@.len(),
            i <= n,
            ps@.len() == i,
            forall|k: int|
                0 <= k < i ==> first_position(
                    string_views(queue_ids@),
                    selected_knowledge_ids@[k]@,
                    #[trigger] ps@[k] as int,
                ),
        decreases n - i,
    {
        match first_index(queue_ids, &selected_knowledge_ids[i]) {
            Some(p) => {
                ps.push(p);
            },
            None => {
                return Err("review plan references an item that is no longer due".to_string());
            },
        }
        i = i + 1;
    }
    Ok(ps)
}


/// Abandoning a session that is no longer active succeeds only when it was
/// already abandoned (and changes nothing).
pub fn check_abandoned(status: &str) -> (r: Result<(), String>)
    ensures
        if status@ == "abandoned"@ {
            r is Ok
        } else {
            r matches Err(e) && e@ == "review session is no longer active"@
        },
{
    if str_eq(status, "abandoned") {
        Ok(())
    } else {
        Err("review session is no longer active".to_string())
    }
}


/// Where a planned item is in the queue and which question it asks: the
/// first queue item with the id; it must be there and have a question.
pub fn plan_item_position(
    queue_ids: &Vec<String>,
    question_ids: &Vec<Option<String>>,
    knowledge_id: &String,
) -> (r: Result<(usize, String), String>)
    requires
        question_ids@.len() == queue_ids@.len(),
    ensures
        match r {
            Ok((p, q)) => first_position(string_views(queue_ids@), knowledge_id@, p as int) && (
            question_ids@[p as int] matches Some(qq) && q@ == qq@),
            Err(e) => if !string_views(queue_ids@).contains(knowledge_id@) {
                e@ == "review plan item disappeared while building preview"@
            } else {
                e@ == "review plan item has no usable question"@ && exists|p: int|
                    first_position(string_views(queue_ids@), knowledge_id@, p)
                        && #[trigger] question_ids@[p] is None
            },
        },
{
    match first_index(queue_ids, knowledge_id) {
        None => Err("review plan item disappeared while building preview".to_string()),
        Some(p) => match &question_ids[p] {
            Some(q) => Ok((p, q.clone())),
            None => {
                assert(question_ids@[p as int] is None);
                Err("review plan item has no usable question".to_string())
            },
        },
    }
}


/// A session is finished once its completed and skipped items (counted
/// with saturation) cover all of its items.
pub fn session_finished(completed_count: i64, skipped_count: i64, item_count: i64) -> (r: bool)
    ensures
        r == ((if completed_count + skipped_count > i64::MAX {
            i64::MAX as int
        } else if completed_count + skipped_count < i64::MIN {
            i64::MIN as int
        } else {
            completed_count + skipped_count
        }) >= item_count),
{
    let total: i64 = if skipped_count > 0 && completed_count > i64::MAX - skipped_count {
        i64::MAX
    } else if skipped_count < 0 && completed_count < i64::MIN - skipped_count {
        i64::MIN
    } else {
        completed_count + skipped_count
    };
    total >= item_count
}

} // verus!
