//! Merging a confirmed duplicate: which of the two pieces of knowledge to keep,
//! when a merge may go on or be undone, and how the links it copies change.
use vstd::prelude::*;
use crate::text::{char_count, push_str, str_eq, trim, trim_str};

verus! {

/// What one side of a duplicate pair holds.
#[derive(Clone, Debug)]
pub struct MergeSideSummary {
    pub id: String,
    pub title: String,
    pub source_count: i64,
    pub evidence_count: i64,
    pub topic_count: i64,
    pub tag_count: i64,
    pub relation_count: i64,
    pub review_count: i64,
    pub mastery_score: i64,
    pub updated_at: i64,
    pub archived_at: Option<i64>,
}

/// A merge of a duplicate pair.
#[derive(Clone, Debug)]
pub struct DuplicateMergeRecord {
    pub id: String,
    pub curation_candidate_id: String,
    pub target_knowledge_id: String,
    pub source_knowledge_id: String,
    pub status: String,
    pub created_at: i64,
    pub reverted_at: Option<i64>,
}

/// What a merge would do, with the recommended side to keep.
#[derive(Clone, Debug)]
pub struct DuplicateMergePreview {
    pub candidate_id: String,
    pub left: MergeSideSummary,
    pub right: MergeSideSummary,
    pub recommended_target_id: String,
    pub recommendation_reason: String,
    pub existing_merge: Option<DuplicateMergeRecord>,
}

/// Which side to keep: more reviews, else more evidence, else more sources,
/// else the more recently updated one (the left on a tie). `true` is left.
pub open spec fn keep_left(left: MergeSideSummary, right: MergeSideSummary) -> bool {
    if left.review_count != right.review_count {
        left.review_count > right.review_count
    } else if left.evidence_count != right.evidence_count {
        left.evidence_count > right.evidence_count
    } else if left.source_count != right.source_count {
        left.source_count > right.source_count
    } else {
        left.updated_at >= right.updated_at
    }
}

/// Which rule decided: 0 reviews, 1 evidence, 2 sources, 3 recency.
pub open spec fn deciding_rule(left: MergeSideSummary, right: MergeSideSummary) -> int {
    if left.review_count != right.review_count {
        0
    } else if left.evidence_count != right.evidence_count {
        1
    } else if left.source_count != right.source_count {
        2
    } else {
        3
    }
}

pub open spec fn recommendation_reason_of(rule: int) -> Seq<char> {
    if rule == 0 {
        "优先保留复习记录更完整的一条，避免人为迁移 mastery。"@
    } else if rule == 1 {
        "复习记录相同，优先保留已有支持证据更多的一条。"@
    } else if rule == 2 {
        "复习与证据数量相同，优先保留来源更丰富的一条。"@
    } else {
        "两条知识信息量接近，默认保留最近更新的一条。"@
    }
}

/// The recommendation does not depend on which side is shown first, except
/// when the two sides are equal in reviews, evidence, sources and update time.
pub proof fn lemma_recommendation_symmetric(left: MergeSideSummary, right: MergeSideSummary)
    requires
        !(left.review_count == right.review_count && left.evidence_count == right.evidence_count
            && left.source_count == right.source_count && left.updated_at == right.updated_at),
    ensures
        keep_left(left, right) == !keep_left(right, left),
        deciding_rule(left, right) == deciding_rule(right, left),
{
}

/// The side to keep and why (see `keep_left`).
pub fn recommend_target(left: &MergeSideSummary, right: &MergeSideSummary) -> (r: (String, String))
    ensures
        r.0@ == (if keep_left(*left, *right) {
            left.id@
        } else {
            right.id@
        }),
        r.1@ == recommendation_reason_of(deciding_rule(*left, *right)),
{
    if left.review_count != right.review_count {
        let chosen = if left.review_count > right.review_count {
            left
        } else {
            right
        };
        return (chosen.id.clone(), "优先保留复习记录更完整的一条，避免人为迁移 mastery。".to_string());
    }
    if left.evidence_count != right.evidence_count {
        let chosen = if left.evidence_count > right.evidence_count {
            left
        } else {
            right
        };
        return (chosen.id.clone(), "复习记录相同，优先保留已有支持证据更多的一条。".to_string());
    }
    if left.source_count != right.source_count {
        let chosen = if left.source_count > right.source_count {
            left
        } else {
            right
        };
        return (chosen.id.clone(), "复习与证据数量相同，优先保留来源更丰富的一条。".to_string());
    }
    let chosen = if left.updated_at >= right.updated_at {
        left
    } else {
        right
    };
    (chosen.id.clone(), "两条知识信息量接近，默认保留最近更新的一条。".to_string())
}

/// An id, trimmed; an error naming the id when it is blank.
pub fn required_id(value: &str, label: &str) -> (r: Result<String, String>)
    ensures
        match r {
            Ok(t) => trim(value@).len() > 0 && t@ == trim(value@),
            Err(e) => trim(value@).len() == 0 && e@ == label@ + " id is empty"@,
        },
{
    let t = trim_str(value);
    if char_count(t.as_str()) == 0 {
        let mut message = label.to_owned();
        push_str(&mut message, " id is empty");
        Err(message)
    } else {
        Ok(t)
    }
}


/// The side a duplicate merge keeps and why: the target of a merge already
/// made, else the recommended side; while no merge is made, neither side
/// may be archived.
pub fn merge_recommendation(
    left: &MergeSideSummary,
    right: &MergeSideSummary,
    existing_target: Option<String>,
) -> (r: Result<(String, String), String>)
    ensures
        match existing_target {
            Some(t) => r matches Ok((id, reason)) && id@ == t@ && reason@
                == "这组重复知识已经完成合并。"@,
            None => if left.archived_at is Some || right.archived_at is Some {
                r matches Err(e) && e@
                    == "one of the duplicate items is archived; restore it before merging"@
            } else {
                r matches Ok((id, reason)) && id@ == (if keep_left(*left, *right) {
                    left.id@
                } else {
                    right.id@
                }) && reason@ == recommendation_reason_of(deciding_rule(*left, *right))
            },
        },
{
    match existing_target {
        Some(t) => Ok((t, "这组重复知识已经完成合并。".to_string())),
        None => {
            if left.archived_at.is_some() || right.archived_at.is_some() {
                return Err(
                    "one of the duplicate items is archived; restore it before merging".to_string(),
                );
            }
            Ok(recommend_target(left, right))
        },
    }
}


/// How a merge of a confirmed duplicate pair goes on.
#[derive(Clone, Debug)]
pub enum MergeStart {
    /// The pair is already merged into this target: that merge stands.
    AlreadyMerged,
    /// The other side, `source_id`, is merged into the target.
    Apply { source_id: String },
}

/// A merge into `target_id` of the pair of `left_id` and `right_id`: the
/// target must be one of the two; a merge already made stands when it has
/// the same target and is an error otherwise; else the other side is the
/// one merged.
pub fn merge_start(left_id: &str, right_id: &str, target_id: &str, existing_target: Option<String>) -> (r:
    Result<MergeStart, String>)
    ensures
        if target_id@ != left_id@ && target_id@ != right_id@ {
            r matches Err(e) && e@ == "merge target is not part of this duplicate pair"@
        } else {
            match existing_target {
                Some(t) => if t@ == target_id@ {
                    r matches Ok(MergeStart::AlreadyMerged)
                } else {
                    r matches Err(e) && e@
                        == "this duplicate pair is already merged with a different target"@
                },
                None => r matches Ok(MergeStart::Apply { source_id }) && source_id@ == (if target_id@
                    == left_id@ {
                    right_id@
                } else {
                    left_id@
                }),
            }
        },
{
    if !str_eq(target_id, left_id) && !str_eq(target_id, right_id) {
        return Err("merge target is not part of this duplicate pair".to_string());
    }
    let source_id = if str_eq(target_id, left_id) {
        right_id.to_string()
    } else {
        left_id.to_string()
    };
    match existing_target {
        Some(t) => if str_eq(t.as_str(), target_id) {
            Ok(MergeStart::AlreadyMerged)
        } else {
            Err("this duplicate pair is already merged with a different target".to_string())
        },
        None => Ok(MergeStart::Apply { source_id }),
    }
}

/// A merge goes on only while both sides are as the preview showed them.
pub fn check_merge_revisions(
    left_updated_at: i64,
    right_updated_at: i64,
    expected_left_updated_at: i64,
    expected_right_updated_at: i64,
) -> (r: Result<(), String>)
    ensures
        match r {
            Ok(()) => left_updated_at == expected_left_updated_at && right_updated_at
                == expected_right_updated_at,
            Err(e) => e@ == "duplicate knowledge changed after preview; refresh the merge preview"@
                && !(left_updated_at == expected_left_updated_at && right_updated_at
                == expected_right_updated_at),
        },
{
    if left_updated_at != expected_left_updated_at || right_updated_at != expected_right_updated_at {
        Err("duplicate knowledge changed after preview; refresh the merge preview".to_string())
    } else {
        Ok(())
    }
}

/// The mark that a merge leaves on every link it copies.
pub open spec fn merge_marker_of(merge_id: Seq<char>) -> Seq<char> {
    "merge:"@ + merge_id
}

/// The mark of the merge with the id (see `merge_marker_of`).
pub fn merge_marker(merge_id: &str) -> (r: String)
    ensures
        r@ == merge_marker_of(merge_id@),
{
    let mut r = "merge:".to_string();
    push_str(&mut r, merge_id);
    r
}

/// Whether a merge in the given status is undone: `Ok(true)` when it already
/// was, `Ok(false)` when it is applied and can be; any other status is an
/// error.
pub fn revert_start(status: &str) -> (r: Result<bool, String>)
    ensures
        if status@ == "reverted"@ {
            r == Ok::<bool, String>(true)
        } else if status@ == "applied"@ {
            r == Ok::<bool, String>(false)
        } else {
            r matches Err(e) && e@ == "knowledge merge is not reversible in its current state"@
        },
{
    if str_eq(status, "reverted") {
        Ok(true)
    } else if str_eq(status, "applied") {
        Ok(false)
    } else {
        Err("knowledge merge is not reversible in its current state".to_string())
    }
}

/// The merged side is as the merge left it: archived at the moment of the
/// merge and not deleted.
pub open spec fn source_as_merged(archived_at: Option<i64>, deleted_at: Option<i64>, merged_at: i64) -> bool {
    deleted_at is None && archived_at == Some(merged_at)
}

/// A merge is undone only while its merged side is as the merge left it
/// (see `source_as_merged`).
pub fn check_revert_source(archived_at: Option<i64>, deleted_at: Option<i64>, merged_at: i64) -> (r:
    Result<(), String>)
    ensures
        match r {
            Ok(()) => source_as_merged(archived_at, deleted_at, merged_at),
            Err(e) => e@ == "merged source changed after merge; automatic revert was blocked"@
                && !source_as_merged(archived_at, deleted_at, merged_at),
        },
{
    let archived_ok = match archived_at {
        Some(a) => a == merged_at,
        None => false,
    };
    if deleted_at.is_some() || !archived_ok {
        Err("merged source changed after merge; automatic revert was blocked".to_string())
    } else {
        Ok(())
    }
}

/// How a merge is undone: the rows carrying `marker` are removed, and the
/// merged side, still archived at `expected_archived_at`, gets back the
/// archive time `restore_archived_at` that it had before the merge.
#[derive(Clone, Debug, PartialEq, Eq)]
pub struct RevertPlan {
    pub marker: String,
    pub restore_archived_at: Option<i64>,
    pub expected_archived_at: i64,
}

/// The plan that undoes the merge with the id, made at `merged_at`, whose
/// snapshot kept the merged side's earlier archive time; refused unless the
/// merged side is as the merge left it (see `source_as_merged`).
pub fn plan_revert(
    merge_id: &str,
    snapshot_archived_at: Option<i64>,
    archived_at: Option<i64>,
    deleted_at: Option<i64>,
    merged_at: i64,
) -> (r: Result<RevertPlan, String>)
    ensures
        match r {
            Ok(p) => source_as_merged(archived_at, deleted_at, merged_at) && p.marker@
                == merge_marker_of(merge_id@) && p.restore_archived_at == snapshot_archived_at
                && p.expected_archived_at == merged_at,
            Err(e) => !source_as_merged(archived_at, deleted_at, merged_at) && e@
                == "merged source changed after merge; automatic revert was blocked"@,
        },
{
    match check_revert_source(archived_at, deleted_at, merged_at) {
        Ok(()) => Ok(
            RevertPlan {
                marker: merge_marker(merge_id),
                restore_archived_at: snapshot_archived_at,
                expected_archived_at: merged_at,
            },
        ),
        Err(e) => Err(e),
    }
}

/// A stored link row (source, evidence, topic, tag or relation link) as a
/// merge and its revert see it: what it links, and the mark of what made it.
pub struct LinkRow {
    pub link: Seq<char>,
    pub created_by: Seq<char>,
}

/// A link table after a merge: its rows, then the copies the merge made,
/// each carrying the merge's mark.
pub open spec fn merged_rows(rows: Seq<LinkRow>, copies: Seq<Seq<char>>, merge_id: Seq<char>) -> Seq<
    LinkRow,
> {
    rows + copies.map_values(
        |c: Seq<char>| LinkRow { link: c, created_by: merge_marker_of(merge_id) },
    )
}

/// A link table after the rows carrying `mark` were removed, the others
/// kept in order.
pub open spec fn rows_without_mark(rows: Seq<LinkRow>, mark: Seq<char>) -> Seq<LinkRow>
    decreases rows.len(),
{
    if rows.len() == 0 {
        Seq::empty()
    } else {
        let r = rows_without_mark(rows.drop_last(), mark);
        if rows.last().created_by == mark {
            r
        } else {
            r.push(rows.last())
        }
    }
}

/// Different merges leave different marks.
pub proof fn lemma_merge_marks_distinct(a: Seq<char>, b: Seq<char>)
    requires
        a != b,
    ensures
        merge_marker_of(a) != merge_marker_of(b),
{
    let p = "merge:"@;
    if merge_marker_of(a) == merge_marker_of(b) {
        assert(merge_marker_of(a).subrange(p.len() as int, merge_marker_of(a).len() as int) =~= a);
        assert(merge_marker_of(b).subrange(p.len() as int, merge_marker_of(b).len() as int) =~= b);
    }
}

/// A revert removes exactly the rows that carry the merge's mark: a row is
/// left if and only if it was there and carries another mark.
pub proof fn lemma_revert_removes_exactly_marked(rows: Seq<LinkRow>, mark: Seq<char>, row: LinkRow)
    ensures
        rows_without_mark(rows, mark).contains(row) <==> rows.contains(row) && row.created_by
            != mark,
    decreases rows.len(),
{
    if rows.len() > 0 {
        let p = rows.drop_last();
        lemma_revert_removes_exactly_marked(p, mark, row);
        let r = rows_without_mark(p, mark);
        if rows.contains(row) && row.created_by != mark && !p.contains(row) {
            let k = choose|k: int| 0 <= k < rows.len() && rows[k] == row;
            if k < rows.len() - 1 {
                assert(p[k] == row);
            }
            assert(rows_without_mark(rows, mark) == r.push(rows.last()));
            assert(rows_without_mark(rows, mark).last() == row);
        }
        if rows_without_mark(rows, mark).contains(row) && !r.contains(row) {
            assert(rows.last() == row);
        }
        if p.contains(row) {
            let k = choose|k: int| 0 <= k < p.len() && p[k] == row;
            assert(rows[k] == row);
        }
        if r.contains(row) {
            let k = choose|k: int| 0 <= k < r.len() && r[k] == row;
            assert(rows_without_mark(rows, mark)[k] == row);
        }
    }
}

/// Rows none of which carries the mark are all kept, in order.
pub proof fn lemma_unmarked_rows_kept(rows: Seq<LinkRow>, mark: Seq<char>)
    requires
        forall|k: int| 0 <= k < rows.len() ==> (#[trigger] rows[k]).created_by != mark,
    ensures
        rows_without_mark(rows, mark) == rows,
    decreases rows.len(),
{
    if rows.len() > 0 {
        lemma_unmarked_rows_kept(rows.drop_last(), mark);
        assert(rows.last() == rows[rows.len() - 1]);
        assert(rows.drop_last().push(rows.last()) =~= rows);
    }
}

/// Removing the mark after more rows carrying it were added gives what
/// removing it gave before.
pub proof fn lemma_marked_copies_removed(rows: Seq<LinkRow>, copies: Seq<LinkRow>, mark: Seq<char>)
    requires
        forall|k: int| 0 <= k < copies.len() ==> (#[trigger] copies[k]).created_by == mark,
    ensures
        rows_without_mark(rows + copies, mark) == rows_without_mark(rows, mark),
    decreases copies.len(),
{
    if copies.len() == 0 {
        assert(rows + copies =~= rows);
    } else {
        assert((rows + copies).drop_last() =~= rows + copies.drop_last());
        assert((rows + copies).last() == copies[copies.len() - 1]);
        lemma_marked_copies_removed(rows, copies.drop_last(), mark);
    }
}

/// Merging then reverting gives back the stored rows: when no row carried
/// the new merge's mark before, removing the rows that carry it after the
/// merge added its copies leaves exactly the rows there were, in order;
/// and the merged side, archived by the merge at its moment and not
/// deleted, passes the revert's check.
pub proof fn lemma_merge_revert_round_trip(
    rows: Seq<LinkRow>,
    copies: Seq<Seq<char>>,
    merge_id: Seq<char>,
    merged_at: i64,
)
    requires
        forall|k: int| 0 <= k < rows.len() ==> (#[trigger] rows[k]).created_by != merge_marker_of(
            merge_id,
        ),
    ensures
        rows_without_mark(merged_rows(rows, copies, merge_id), merge_marker_of(merge_id)) == rows,
        source_as_merged(Some(merged_at), None, merged_at),
{
    let mark = merge_marker_of(merge_id);
    let added = copies.map_values(|c: Seq<char>| LinkRow { link: c, created_by: mark });
    assert forall|k: int| 0 <= k < added.len() implies (#[trigger] added[k]).created_by == mark by {}
    lemma_marked_copies_removed(rows, added, mark);
    lemma_unmarked_rows_kept(rows, mark);
}

/// A merge just made can be undone: it archives the merged side at the
/// moment of the merge, which is the state a revert asks for.
pub proof fn lemma_applied_merge_revertible(created_at: i64)
    ensures
        source_as_merged(Some(created_at), None, created_at),
{
}


/// An end of a relation after the merge: the merged side becomes the kept
/// side.
pub open spec fn moved_end(end: Seq<char>, merged_id: Seq<char>, kept_id: Seq<char>) -> Seq<char> {
    if end == merged_id {
        kept_id
    } else {
        end
    }
}

/// A relation of the merged side, moved onto the kept side (see
/// `moved_end`); one that would link the kept side to itself is dropped.
pub fn moved_relation(relation_source: &str, relation_target: &str, merged_id: &str, kept_id: &str) -> (r:
    Option<(String, String)>)
    ensures
        ({
            let s = moved_end(relation_source@, merged_id@, kept_id@);
            let t = moved_end(relation_target@, merged_id@, kept_id@);
            if s == t {
                r is None
            } else {
                r matches Some((a, b)) && a@ == s && b@ == t
            }
        }),
{
    let s = if str_eq(relation_source, merged_id) {
        kept_id
    } else {
        relation_source
    };
    let t = if str_eq(relation_target, merged_id) {
        kept_id
    } else {
        relation_target
    };
    if str_eq(s, t) {
        None
    } else {
        Some((s.to_string(), t.to_string()))
    }
}

/// The role of a source link copied by a merge: the merged side's origin
/// becomes a supporting source of the kept side.
pub fn merged_link_role(role: &str) -> (r: String)
    ensures
        r@ == (if role@ == "origin"@ {
            "supporting"@
        } else {
            role@
        }),
{
    if str_eq(role, "origin") {
        "supporting".to_string()
    } else {
        role.to_string()
    }
}

/// After a merge no moved relation touches the merged side, as long as the
/// two sides differ.
pub proof fn lemma_moved_relation_leaves_merged_side(
    relation_source: Seq<char>,
    relation_target: Seq<char>,
    merged_id: Seq<char>,
    kept_id: Seq<char>,
)
    requires
        merged_id != kept_id,
    ensures
        moved_end(relation_source, merged_id, kept_id) != merged_id,
        moved_end(relation_target, merged_id, kept_id) != merged_id,
{
}

} // verus!
