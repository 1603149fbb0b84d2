//! The knowledge graph: which part of the library a graph view shows, how
//! the shown knowledge is linked, and in which order the overview lists it.
use vstd::prelude::*;
use crate::merge::merge_marker_of;
use crate::source::cleaned;
use crate::search::{lemma_text_le_antisymmetric, lemma_text_le_total, lemma_text_le_transitive, str_le, text_le};
use crate::text::{
    char_count, contains_string, join, join_strings, occurs_at, push_str, starts_with, str_eq,
    string_views, take_strings, trim_str,
};

verus! {

/// Nodes shown when no limit is asked for.
pub const DEFAULT_NODE_LIMIT: u32 = 42;

/// The most nodes a graph view shows.
pub const MAX_NODE_LIMIT: u32 = 72;

/// A piece of knowledge as a node of the graph.
#[derive(Clone, Debug)]
pub struct KnowledgeGraphNode {
    pub id: String,
    pub title: String,
    pub status: String,
    pub quality_status: String,
    pub platform: String,
    pub author: Option<String>,
    pub mastery_score: i64,
    pub review_count: i64,
    pub topic_names: Vec<String>,
    pub tag_names: Vec<String>,
    pub relation_count: i64,
    pub source_count: i64,
    pub updated_at: i64,
    pub is_center: bool,
}

/// An optional id, trimmed; blank values become absent.
pub fn clean_optional(value: Option<String>) -> (r: Option<String>)
    ensures
        match cleaned(value) {
            Some(t) => r matches Some(s) && s@ == t,
            None => r is None,
        },
{
    match value {
        Some(v) => {
            let t = trim_str(v.as_str());
            if char_count(t.as_str()) > 0 {
                Some(t)
            } else {
                None
            }
        },
        None => None,
    }
}

/// The depth and node limit of a graph view: depth 2 when unset and else
/// kept within 1..=2; limit 42 when unset and else kept within 8..=72.
pub fn graph_bounds(depth: Option<u32>, limit: Option<u32>) -> (r: (u32, usize))
    ensures
        r.0 == (match depth {
            None => 2,
            Some(d) => if d < 1 {
                1
            } else if d > 2 {
                2
            } else {
                d as int
            },
        }),
        r.1 == (match limit {
            None => 42,
            Some(l) => if l < 8 {
                8
            } else if l > 72 {
                72
            } else {
                l as int
            },
        }),
{
    let d: u32 = match depth {
        None => 2,
        Some(d) => if d < 1 {
            1
        } else if d > 2 {
            2
        } else {
            d
        },
    };
    let l: u32 = match limit {
        None => DEFAULT_NODE_LIMIT,
        Some(l) => if l < 8 {
            8
        } else if l > MAX_NODE_LIMIT {
            MAX_NODE_LIMIT
        } else {
            l
        },
    };
    (d, l as usize)
}

/// Whether a graph view leaves knowledge out: there is more active
/// knowledge than nodes, and the nodes reached the limit.
pub fn is_truncated(total_active: i64, node_count: usize, limit: usize) -> (r: bool)
    ensures
        r == (total_active > node_count && node_count >= limit),
{
    if total_active <= 0 {
        false
    } else if total_active as u64 > node_count as u64 {
        node_count >= limit
    } else {
        false
    }
}


/// Who confirmed a relation, as a graph edge explains it: by `created_by`,
/// with every merge (`merge:` and its id) shown as inherited.
pub open spec fn relation_source_of(created_by: Seq<char>) -> Seq<char> {
    if created_by == "user"@ {
        "手动确认"@
    } else if created_by == "agent"@ {
        "AI 助手确认"@
    } else if created_by == "curation"@ {
        "知识整理确认"@
    } else if occurs_at(created_by, "merge:"@, 0) {
        "合并继承"@
    } else {
        "已确认关系"@
    }
}

/// Who confirmed a relation (see `relation_source_of`).
pub fn relation_source(created_by: &str) -> (r: &'static str)
    ensures
        r@ == relation_source_of(created_by@),
{
    if str_eq(created_by, "user") {
        "手动确认"
    } else if str_eq(created_by, "agent") {
        "AI 助手确认"
    } else if str_eq(created_by, "curation") {
        "知识整理确认"
    } else if starts_with(created_by, "merge:") {
        "合并继承"
    } else {
        "已确认关系"
    }
}


/// A relation that a merge copied is shown as inherited from the merge,
/// whatever the merge's id.
pub proof fn lemma_merged_relation_inherited(merge_id: Seq<char>)
    ensures
        relation_source_of(merge_marker_of(merge_id)) == "合并继承"@,
{
    reveal_strlit("merge:");
    reveal_strlit("user");
    reveal_strlit("agent");
    reveal_strlit("curation");
    let m = merge_marker_of(merge_id);
    assert(m[0] == 'm');
    assert(m.subrange(0, 6) =~= "merge:"@);
    assert(m != "user"@);
    assert(m != "agent"@);
    assert(m != "curation"@);
}


// ---------------------------------------------------------------------------
// Edges between knowledge that shares a source, a topic or a tag
// ---------------------------------------------------------------------------

/// One piece of knowledge belonging to a group (a source, a topic or a tag),
/// with the group's name.
#[derive(Clone, Debug)]
pub struct StructuralRow {
    pub knowledge_id: String,
    pub group_id: String,
    pub label: String,
}

/// Two shown pieces of knowledge that share groups, the smaller id first,
/// with the names of up to three shared groups in order.
#[derive(Clone, Debug)]
pub struct StructuralPair {
    pub source: String,
    pub target: String,
    pub labels: Vec<String>,
}

/// `a` comes strictly before `b`.
pub open spec fn text_lt(a: Seq<char>, b: Seq<char>) -> bool {
    text_le(a, b) && a != b
}

/// Each text comes strictly before the next.
pub open spec fn strictly_sorted(l: Seq<Seq<char>>) -> bool {
    forall|i: int, j: int| 0 <= i < j < l.len() ==> text_lt(#[trigger] l[i], #[trigger] l[j])
}

proof fn lemma_text_lt_transitive(a: Seq<char>, b: Seq<char>, c: Seq<char>)
    requires
        text_lt(a, b),
        text_le(b, c),
    ensures
        text_lt(a, c),
{
    lemma_text_le_transitive(a, b, c);
    if a == c {
        lemma_text_le_antisymmetric(a, b);
    }
}

/// The first position whose text does not come before `l`.
fn lower_position(labels: &Vec<String>, l: &str) -> (p: usize)
    ensures
        p <= labels@.len(),
        forall|k: int| 0 <= k < p ==> text_lt(#[trigger] labels@[k]@, l@),
        p < labels@.len() ==> text_le(l@, labels@[p as int]@),
{
    let n = labels.len();
    let mut i: usize = 0;
    while i < n
        invariant
            n == labels@.len(),
            i <= n,
            forall|k: int| 0 <= k < i ==> text_lt(#[trigger] labels@[k]@, l@),
        decreases n - i,
    {
        if str_le(l, labels[i].as_str()) {
            return i;
        }
        proof {
            lemma_text_le_total(l@, labels@[i as int]@);
        }
        i = i + 1;
    }
    i
}

/// Adds `l` to a sorted list of distinct texts, keeping it so.
#[verifier::spinoff_prover]
fn sorted_insert(labels: &mut Vec<String>, l: &String)
    requires
        strictly_sorted(string_views(old(labels)@)),
    ensures
        strictly_sorted(string_views(final(labels)@)),
        string_views(final(labels)@).to_set() == string_views(old(labels)@).to_set().insert(l@),
{
    let ghost before = string_views(labels@);
    let p = lower_position(labels, l.as_str());
    if p < labels.len() && str_eq(labels[p].as_str(), l.as_str()) {
        assert(before[p as int] == l@);
        assert(before.to_set() =~= before.to_set().insert(l@));
        return;
    }
    labels.insert(p, l.clone());
    let ghost after = string_views(labels@);
    assert(after =~= before.insert(p as int, l@));
    assert forall|i: int, j: int| 0 <= i < j < after.len() implies text_lt(
        #[trigger] after[i],
        #[trigger] after[j],
    ) by {
        if j < p {
            assert(after[i] == before[i] && after[j] == before[j]);
        } else if j == p {
            assert(after[i] == before[i]);
            assert(text_lt(labels@[i]@, l@));
        } else if i == p {
            assert(after[j] == before[j - 1]);
            assert(text_le(l@, before[p as int]));
            assert(l@ != before[p as int]);
            if j - 1 > p {
                assert(text_lt(before[p as int], before[j - 1]));
                lemma_text_lt_transitive(l@, before[p as int], before[j - 1]);
            }
        } else if i < p {
            assert(after[i] == before[i] && after[j] == before[j - 1]);
        } else {
            assert(after[i] == before[i - 1] && after[j] == before[j - 1]);
        }
    }
    assert forall|x: Seq<char>| after.contains(x) implies before.contains(x) || x == l@ by {
        let k = choose|k: int| 0 <= k < after.len() && after[k] == x;
        if k < p {
            assert(before[k] == x);
        } else if k > p {
            assert(before[k - 1] == x);
        }
    }
    assert forall|x: Seq<char>| before.contains(x) || x == l@ implies after.contains(x) by {
        if x == l@ {
            assert(after[p as int] == x);
        } else {
            let k = choose|k: int| 0 <= k < before.len() && before[k] == x;
            if k < p {
                assert(after[k] == x);
            } else {
                assert(after[k + 1] == x);
            }
        }
    }
    assert(after.to_set() =~= before.to_set().insert(l@));
}


/// `k` is shown and belongs to the group `g`.
pub open spec fn in_group(rows: Seq<StructuralRow>, shown: Seq<Seq<char>>, g: Seq<char>, k: Seq<char>) -> bool {
    exists|i: int|
        #![trigger rows[i]]
        0 <= i < rows.len() && rows[i].group_id@ == g && rows[i].knowledge_id@ == k && shown.contains(
            k,
        )
}

/// The name of a group: that of its first row about shown knowledge.
pub open spec fn group_label(rows: Seq<StructuralRow>, shown: Seq<Seq<char>>, g: Seq<char>) -> Option<
    Seq<char>,
>
    decreases rows.len(),
{
    if rows.len() == 0 {
        None
    } else {
        match group_label(rows.drop_last(), shown, g) {
            Some(l) => Some(l),
            None => if rows.last().group_id@ == g && shown.contains(rows.last().knowledge_id@) {
                Some(rows.last().label@)
            } else {
                None
            },
        }
    }
}

proof fn lemma_in_group_take(
    rows: Seq<StructuralRow>,
    shown: Seq<Seq<char>>,
    i: int,
    g: Seq<char>,
    k: Seq<char>,
)
    requires
        0 <= i < rows.len(),
    ensures
        in_group(rows.take(i + 1), shown, g, k) == (in_group(rows.take(i), shown, g, k) || (
        rows[i].group_id@ == g && rows[i].knowledge_id@ == k && shown.contains(k))),
{
    let r0 = rows.take(i);
    let r1 = rows.take(i + 1);
    if in_group(r1, shown, g, k) {
        let j = choose|j: int|
            #![trigger r1[j]]
            0 <= j < r1.len() && r1[j].group_id@ == g && r1[j].knowledge_id@ == k
                && shown.contains(k);
        if j < i {
            assert(r0[j] == r1[j]);
        }
    }
    if in_group(r0, shown, g, k) {
        let j = choose|j: int|
            #![trigger r0[j]]
            0 <= j < r0.len() && r0[j].group_id@ == g && r0[j].knowledge_id@ == k
                && shown.contains(k);
        assert(r1[j] == r0[j]);
    }
    assert(r1[i] == rows[i]);
}

proof fn lemma_group_label_some(rows: Seq<StructuralRow>, shown: Seq<Seq<char>>, g: Seq<char>)
    ensures
        (group_label(rows, shown, g) is Some) == (exists|j: int|
            #![trigger rows[j]]
            0 <= j < rows.len() && rows[j].group_id@ == g && shown.contains(rows[j].knowledge_id@)),
    decreases rows.len(),
{
    if rows.len() > 0 {
        let r0 = rows.drop_last();
        lemma_group_label_some(r0, shown, g);
        if group_label(r0, shown, g) is Some {
            let j = choose|j: int|
                #![trigger r0[j]]
                0 <= j < r0.len() && r0[j].group_id@ == g && shown.contains(r0[j].knowledge_id@);
            assert(rows[j] == r0[j]);
        }
        if exists|j: int|
            #![trigger rows[j]]
            0 <= j < rows.len() && rows[j].group_id@ == g && shown.contains(rows[j].knowledge_id@) {
            let j = choose|j: int|
                #![trigger rows[j]]
                0 <= j < rows.len() && rows[j].group_id@ == g && shown.contains(
                    rows[j].knowledge_id@,
                );
            if j < r0.len() {
                assert(r0[j] == rows[j]);
            }
        }
    }
}

struct Group {
    id: String,
    label: String,
    members: Vec<String>,
}

spec fn groups_wf(rows: Seq<StructuralRow>, shown: Seq<Seq<char>>, gs: Seq<Group>) -> bool {
    &&& forall|x: int, y: int| 0 <= x < y < gs.len() ==> #[trigger] gs[x].id@ != #[trigger] gs[y].id@
    &&& forall|x: int|
        0 <= x < gs.len() ==> group_label(rows, shown, #[trigger] gs[x].id@) == Some(gs[x].label@)
    &&& forall|x: int, p: int, q: int|
        0 <= x < gs.len() && 0 <= p < q < gs[x].members@.len() ==> #[trigger] gs[x].members@[p]@
            != #[trigger] gs[x].members@[q]@
    &&& forall|x: int, k: Seq<char>|
        #![trigger string_views(gs[x].members@).contains(k)]
        #![trigger in_group(rows, shown, gs[x].id@, k)]
        0 <= x < gs.len() ==> (string_views(gs[x].members@).contains(k) <==> in_group(
            rows,
            shown,
            gs[x].id@,
            k,
        ))
    &&& forall|g: Seq<char>, k: Seq<char>|
        #[trigger] in_group(rows, shown, g, k) ==> exists|x: int| 0 <= x < gs.len() && #[trigger] gs[x].id@ == g
}

fn group_index(gs: &Vec<Group>, id: &String) -> (r: Option<usize>)
    ensures
        match r {
            Some(x) => x < gs@.len() && gs@[x as int].id@ == id@,
            None => forall|x: int| 0 <= x < gs@.len() ==> gs@[x].id@ != id@,
        },
{
    let n = gs.len();
    let mut x: usize = 0;
    while x < n
        invariant
            n == gs@.len(),
            x <= n,
            forall|y: int| 0 <= y < x ==> gs@[y].id@ != id@,
        decreases n - x,
    {
        if str_eq(gs[x].id.as_str(), id.as_str()) {
            return Some(x);
        }
        x = x + 1;
    }
    None
}

/// The groups of the shown knowledge, each with its name and its distinct
/// members.
#[verifier::spinoff_prover]
fn collect_groups(rows: &Vec<StructuralRow>, selected: &Vec<String>) -> (gs: Vec<Group>)
    ensures
        groups_wf(rows@, string_views(selected@), gs@),
{
    let ghost shown = string_views(selected@);
    let mut gs: Vec<Group> = Vec::new();
    let n = rows.len();
    let mut i: usize = 0;
    assert forall|g: Seq<char>, k: Seq<char>| !in_group(rows@.take(0), shown, g, k) by {}
    while i < n
        invariant
            n == rows@.len(),
            shown == string_views(selected@),
            i <= n,
            groups_wf(rows@.take(i as int), shown, gs@),
        decreases n - i,
    {
        let ghost r0 = rows@.take(i as int);
        let ghost r1 = rows@.take(i + 1);
        let ghost old_gs = gs@;
        let ghost row = rows@[i as int];
        assert(r1.drop_last() =~= r0);
        assert(r1.last() == row);
        assert forall|g: Seq<char>, k: Seq<char>|
            #![trigger in_group(r1, shown, g, k)]
            in_group(r1, shown, g, k) == (in_group(r0, shown, g, k) || (row.group_id@ == g
                && row.knowledge_id@ == k && shown.contains(k))) by {
            lemma_in_group_take(rows@, shown, i as int, g, k);
        }
        if contains_string(selected, &rows[i].knowledge_id) {
            match group_index(&gs, &rows[i].group_id) {
                None => {
                    let ghost g = row.group_id@;
                    proof {
                        lemma_group_label_some(r0, shown, g);
                        if group_label(r0, shown, g) is Some {
                            let j = choose|j: int|
                                #![trigger r0[j]]
                                0 <= j < r0.len() && r0[j].group_id@ == g && shown.contains(
                                    r0[j].knowledge_id@,
                                );
                            assert(in_group(r0, shown, g, r0[j].knowledge_id@));
                        }
                    }
                    let mut members: Vec<String> = Vec::new();
                    members.push(rows[i].knowledge_id.clone());
                    gs.push(
                        Group {
                            id: rows[i].group_id.clone(),
                            label: rows[i].label.clone(),
                            members,
                        },
                    );
                    assert(gs@ == old_gs.push(gs@[old_gs.len() as int]));
                    assert(string_views(gs@[old_gs.len() as int].members@) =~= seq![
                        row.knowledge_id@,
                    ]);
                    assert forall|x: int| 0 <= x < gs@.len() implies group_label(
                        r1,
                        shown,
                        #[trigger] gs@[x].id@,
                    ) == Some(gs@[x].label@) by {
                        if x < old_gs.len() {
                            assert(gs@[x] == old_gs[x]);
                        }
                    }
                    assert forall|x: int, k: Seq<char>| 0 <= x < gs@.len() implies (string_views(gs@[x].members@).contains(k) <==> in_group(r1, shown, gs@[x].id@, k)) by {
                        if x < old_gs.len() {
                            assert(gs@[x] == old_gs[x]);
                        } else {
                            if in_group(r0, shown, g, k) {
                                assert(exists|y: int| 0 <= y < old_gs.len() && #[trigger] old_gs[y].id@ == g);
                            }
                            if k == row.knowledge_id@ {
                                assert(string_views(gs@[x].members@)[0] == k);
                            }
                        }
                    }
                    assert forall|gg: Seq<char>, k: Seq<char>| #[trigger] in_group(r1, shown, gg, k) implies exists|x: int|
                        0 <= x < gs@.len() && #[trigger] gs@[x].id@ == gg by {
                        if in_group(r0, shown, gg, k) {
                            let y = choose|y: int| 0 <= y < old_gs.len() && #[trigger] old_gs[y].id@ == gg;
                            assert(gs@[y] == old_gs[y]);
                        } else {
                            assert(gs@[old_gs.len() as int].id@ == gg);
                        }
                    }
                    assert forall|x: int, p: int, q: int|
                        0 <= x < gs@.len() && 0 <= p < q < gs@[x].members@.len() implies #[trigger] gs@[x].members@[p]@
                            != #[trigger] gs@[x].members@[q]@ by {
                        if x < old_gs.len() {
                            assert(gs@[x] == old_gs[x]);
                        }
                    }
                    assert forall|x: int, y: int| 0 <= x < y < gs@.len() implies #[trigger] gs@[x].id@ != #[trigger] gs@[y].id@ by {
                        if y < old_gs.len() {
                            assert(gs@[x] == old_gs[x] && gs@[y] == old_gs[y]);
                        } else {
                            assert(gs@[x] == old_gs[x]);
                        }
                    }
                },
                Some(x) => {
                    if !contains_string(&gs[x].members, &rows[i].knowledge_id) {
                        let mut members = crate::text::clone_strings(&gs[x].members);
                        let ghost old_members = members@;
                        members.push(rows[i].knowledge_id.clone());
                        let group = Group {
                            id: gs[x].id.clone(),
                            label: gs[x].label.clone(),
                            members,
                        };
                        gs.set(x, group);
                        assert(string_views(gs@[x as int].members@) =~= string_views(old_gs[x as int].members@).push(row.knowledge_id@));
                        assert forall|y: int| 0 <= y < gs@.len() implies group_label(
                            r1,
                            shown,
                            #[trigger] gs@[y].id@,
                        ) == Some(gs@[y].label@) by {
                            if y != x {
                                assert(gs@[y] == old_gs[y]);
                            }
                        }
                        assert forall|y: int, k: Seq<char>| 0 <= y < gs@.len() implies (string_views(gs@[y].members@).contains(k) <==> in_group(r1, shown, gs@[y].id@, k)) by {
                            if y != x {
                                assert(gs@[y] == old_gs[y]);
                                assert(string_views(gs@[y].members@).contains(k) <==> in_group(r0, shown, gs@[y].id@, k));
                            } else {
                                assert(string_views(old_gs[y].members@).contains(k) <==> in_group(r0, shown, gs@[y].id@, k));
                                if k == row.knowledge_id@ {
                                    assert(string_views(gs@[y].members@)[string_views(gs@[y].members@).len() - 1] == k);
                                }
                                if string_views(gs@[y].members@).contains(k) && k != row.knowledge_id@ {
                                    let p = choose|p: int| 0 <= p < string_views(gs@[y].members@).len() && string_views(gs@[y].members@)[p] == k;
                                    assert(string_views(old_gs[y].members@)[p] == k);
                                }
                                if string_views(old_gs[y].members@).contains(k) {
                                    let p = choose|p: int| 0 <= p < string_views(old_gs[y].members@).len() && string_views(old_gs[y].members@)[p] == k;
                                    assert(string_views(gs@[y].members@)[p] == k);
                                }
                            }
                        }
                        assert forall|gg: Seq<char>, k: Seq<char>| #[trigger] in_group(r1, shown, gg, k) implies exists|y: int|
                            0 <= y < gs@.len() && #[trigger] gs@[y].id@ == gg by {
                            if in_group(r0, shown, gg, k) {
                                let y = choose|y: int| 0 <= y < old_gs.len() && #[trigger] old_gs[y].id@ == gg;
                                assert(gs@[y].id@ == old_gs[y].id@);
                            } else {
                                assert(gs@[x as int].id@ == gg);
                            }
                        }
                        assert forall|y: int, p: int, q: int|
                            0 <= y < gs@.len() && 0 <= p < q < gs@[y].members@.len() implies #[trigger] gs@[y].members@[p]@
                                != #[trigger] gs@[y].members@[q]@ by {
                            if y != x {
                                assert(gs@[y] == old_gs[y]);
                            } else {
                                let last = old_gs[y].members@.len() as int;
                                if q == last {
                                    assert(gs@[y].members@[p]@ == string_views(old_gs[y].members@)[p]);
                                    assert(string_views(old_gs[y].members@).contains(gs@[y].members@[p]@));
                                } else {
                                    assert(string_views(gs@[y].members@)[p] == gs@[y].members@[p]@);
                                    assert(string_views(gs@[y].members@)[q] == gs@[y].members@[q]@);
                                    assert(string_views(old_gs[y].members@)[p] == old_gs[y].members@[p]@);
                                    assert(string_views(old_gs[y].members@)[q] == old_gs[y].members@[q]@);
                                }
                            }
                        }
                        assert forall|y: int, z: int| 0 <= y < z < gs@.len() implies #[trigger] gs@[y].id@ != #[trigger] gs@[z].id@ by {
                            assert(gs@[y].id@ == old_gs[y].id@ && gs@[z].id@ == old_gs[z].id@);
                        }
                    } else {
                        assert forall|y: int, k: Seq<char>| 0 <= y < gs@.len() implies (string_views(gs@[y].members@).contains(k) <==> in_group(r1, shown, gs@[y].id@, k)) by {
                            assert(string_views(gs@[y].members@).contains(k) <==> in_group(r0, shown, gs@[y].id@, k));
                        }
                        assert forall|gg: Seq<char>, k: Seq<char>| #[trigger] in_group(r1, shown, gg, k) implies exists|y: int|
                            0 <= y < gs@.len() && #[trigger] gs@[y].id@ == gg by {
                            if in_group(r0, shown, gg, k) {
                            } else {
                                assert(gs@[x as int].id@ == gg);
                            }
                        }
                    }
                },
            }
        } else {
            assert forall|gg: Seq<char>, k: Seq<char>| #[trigger] in_group(r1, shown, gg, k) implies in_group(r0, shown, gg, k) by {}
            assert forall|y: int, k: Seq<char>| 0 <= y < gs@.len() implies (string_views(gs@[y].members@).contains(k) <==> in_group(r1, shown, gs@[y].id@, k)) by {
                assert(string_views(gs@[y].members@).contains(k) <==> in_group(r0, shown, gs@[y].id@, k));
            }
        }
        i = i + 1;
    }
    assert(rows@.take(n as int) =~= rows@);
    gs
}


pub open spec fn id_pair_views(v: Seq<(String, String)>) -> Seq<(Seq<char>, Seq<char>)> {
    v.map_values(|p: (String, String)| (p.0@, p.1@))
}

fn has_pair(ps: &Vec<(String, String)>, a: &String, b: &String) -> (r: bool)
    ensures
        r == id_pair_views(ps@).contains((a@, b@)),
{
    let n = ps.len();
    let mut i: usize = 0;
    while i < n
        invariant
            n == ps@.len(),
            i <= n,
            forall|k: int| 0 <= k < i ==> id_pair_views(ps@)[k] != (a@, b@),
        decreases n - i,
    {
        if str_eq(ps[i].0.as_str(), a.as_str()) && str_eq(ps[i].1.as_str(), b.as_str()) {
            assert(id_pair_views(ps@)[i as int] == (a@, b@));
            return true;
        }
        assert(id_pair_views(ps@)[i as int] == (ps@[i as int].0@, ps@[i as int].1@));
        i = i + 1;
    }
    false
}

/// Adds each ordered pair of distinct members of one group, the smaller
/// first, that is not listed yet.
#[verifier::spinoff_prover]
fn add_group_pairs(members: &Vec<String>, ps: &mut Vec<(String, String)>)
    requires
        id_pair_views(old(ps)@).no_duplicates(),
    ensures
        id_pair_views(final(ps)@).no_duplicates(),
        forall|pr: (Seq<char>, Seq<char>)|
            #[trigger] id_pair_views(final(ps)@).contains(pr) ==> id_pair_views(old(ps)@).contains(pr) || (
            string_views(members@).contains(pr.0) && string_views(members@).contains(pr.1)
                && text_lt(pr.0, pr.1)),
        forall|pr: (Seq<char>, Seq<char>)|
            id_pair_views(old(ps)@).contains(pr) ==> #[trigger] id_pair_views(final(ps)@).contains(pr),
        forall|a: Seq<char>, b: Seq<char>|
            string_views(members@).contains(a) && string_views(members@).contains(b) && text_lt(a, b)
                ==> #[trigger] id_pair_views(final(ps)@).contains((a, b)),
{
    let ghost mv = string_views(members@);
    let ghost start = id_pair_views(ps@);
    let n = members.len();
    let mut p: usize = 0;
    while p < n
        invariant
            n == members@.len(),
            mv == string_views(members@),
            p <= n,
            id_pair_views(ps@).no_duplicates(),
            forall|pr: (Seq<char>, Seq<char>)|
                #[trigger] id_pair_views(ps@).contains(pr) ==> start.contains(pr) || (mv.contains(pr.0)
                    && mv.contains(pr.1) && text_lt(pr.0, pr.1)),
            forall|pr: (Seq<char>, Seq<char>)| start.contains(pr) ==> #[trigger] id_pair_views(ps@).contains(pr),
            forall|i: int, j: int|
                0 <= i < p && 0 <= j < n && text_lt(mv[i], mv[j]) ==> #[trigger] id_pair_views(ps@).contains(
                    (#[trigger] mv[i], #[trigger] mv[j]),
                ),
        decreases n - p,
    {
        let mut q: usize = 0;
        while q < n
            invariant
                n == members@.len(),
                mv == string_views(members@),
                p < n,
                q <= n,
                id_pair_views(ps@).no_duplicates(),
                forall|pr: (Seq<char>, Seq<char>)|
                    #[trigger] id_pair_views(ps@).contains(pr) ==> start.contains(pr) || (mv.contains(
                        pr.0,
                    ) && mv.contains(pr.1) && text_lt(pr.0, pr.1)),
                forall|pr: (Seq<char>, Seq<char>)| start.contains(pr) ==> #[trigger] id_pair_views(ps@).contains(pr),
                forall|i: int, j: int|
                    0 <= i < p && 0 <= j < n && text_lt(mv[i], mv[j]) ==> #[trigger] id_pair_views(ps@).contains(
                        (#[trigger] mv[i], #[trigger] mv[j]),
                    ),
                forall|j: int|
                    0 <= j < q && text_lt(mv[p as int], mv[j]) ==> #[trigger] id_pair_views(ps@).contains(
                        (mv[p as int], #[trigger] mv[j]),
                    ),
            decreases n - q,
        {
            let a = &members[p];
            let b = &members[q];
            assert(mv[p as int] == a@ && mv[q as int] == b@);
            if str_le(a.as_str(), b.as_str()) && !str_eq(a.as_str(), b.as_str()) {
                if !has_pair(ps, a, b) {
                    let ghost before = id_pair_views(ps@);
                    ps.push((a.clone(), b.clone()));
                    assert(id_pair_views(ps@) =~= before.push((a@, b@)));
                    assert forall|pr: (Seq<char>, Seq<char>)| before.contains(pr) implies #[trigger] id_pair_views(ps@).contains(pr) by {
                        let k = choose|k: int| 0 <= k < before.len() && before[k] == pr;
                        assert(id_pair_views(ps@)[k] == pr);
                    }
                    assert(id_pair_views(ps@)[before.len() as int] == (a@, b@));
                    assert forall|pr: (Seq<char>, Seq<char>)| #[trigger] id_pair_views(ps@).contains(pr) implies before.contains(pr) || pr == (a@, b@) by {
                        let k = choose|k: int| 0 <= k < id_pair_views(ps@).len() && id_pair_views(ps@)[k] == pr;
                        if k < before.len() {
                            assert(before[k] == pr);
                        }
                    }
                    assert(mv.contains(a@) && mv.contains(b@));
                }
            }
            q = q + 1;
        }
        p = p + 1;
    }
    assert forall|a: Seq<char>, b: Seq<char>|
        mv.contains(a) && mv.contains(b) && text_lt(a, b) implies #[trigger] id_pair_views(ps@).contains((a, b)) by {
        let i = choose|i: int| 0 <= i < mv.len() && mv[i] == a;
        let j = choose|j: int| 0 <= j < mv.len() && mv[j] == b;
        assert(id_pair_views(ps@).contains((mv[i], mv[j])));
    }
}


spec fn co_members(gs: Seq<Group>, x: int, a: Seq<char>, b: Seq<char>) -> bool {
    string_views(gs[x].members@).contains(a) && string_views(gs[x].members@).contains(b)
}

/// Every pair of shown knowledge sharing a group, the smaller id first, once.
#[verifier::spinoff_prover]
fn collect_pairs(gs: &Vec<Group>) -> (ps: Vec<(String, String)>)
    ensures
        id_pair_views(ps@).no_duplicates(),
        forall|pr: (Seq<char>, Seq<char>)|
            #[trigger] id_pair_views(ps@).contains(pr) ==> text_lt(pr.0, pr.1) && exists|x: int|
                0 <= x < gs@.len() && #[trigger] co_members(gs@, x, pr.0, pr.1),
        forall|x: int, a: Seq<char>, b: Seq<char>|
            0 <= x < gs@.len() && #[trigger] co_members(gs@, x, a, b) && text_lt(a, b)
                ==> id_pair_views(ps@).contains((a, b)),
{
    let mut ps: Vec<(String, String)> = Vec::new();
    let n = gs.len();
    let mut x: usize = 0;
    assert(id_pair_views(ps@) =~= Seq::<(Seq<char>, Seq<char>)>::empty());
    while x < n
        invariant
            n == gs@.len(),
            x <= n,
            id_pair_views(ps@).no_duplicates(),
            forall|pr: (Seq<char>, Seq<char>)|
                #[trigger] id_pair_views(ps@).contains(pr) ==> text_lt(pr.0, pr.1) && exists|y: int|
                    0 <= y < x && #[trigger] co_members(gs@, y, pr.0, pr.1),
            forall|y: int, a: Seq<char>, b: Seq<char>|
                0 <= y < x && #[trigger] co_members(gs@, y, a, b) && text_lt(a, b)
                    ==> id_pair_views(ps@).contains((a, b)),
        decreases n - x,
    {
        let ghost before = id_pair_views(ps@);
        add_group_pairs(&gs[x].members, &mut ps);
        assert forall|pr: (Seq<char>, Seq<char>)|
            #[trigger] id_pair_views(ps@).contains(pr) implies text_lt(pr.0, pr.1) && exists|y: int|
                0 <= y < x + 1 && #[trigger] co_members(gs@, y, pr.0, pr.1) by {
            if before.contains(pr) {
                let y = choose|y: int| 0 <= y < x && #[trigger] co_members(gs@, y, pr.0, pr.1);
                assert(co_members(gs@, y, pr.0, pr.1));
            } else {
                assert(co_members(gs@, x as int, pr.0, pr.1));
            }
        }
        assert forall|y: int, a: Seq<char>, b: Seq<char>|
            0 <= y < x + 1 && #[trigger] co_members(gs@, y, a, b) && text_lt(a, b)
                implies id_pair_views(ps@).contains((a, b)) by {
            if y < x {
                assert(before.contains((a, b)));
            }
        }
        x = x + 1;
    }
    ps
}

/// Pair `p` comes strictly before pair `q`: by the first text, then by the
/// second.
pub open spec fn pair_lt(p: (Seq<char>, Seq<char>), q: (Seq<char>, Seq<char>)) -> bool {
    text_lt(p.0, q.0) || (p.0 == q.0 && text_lt(p.1, q.1))
}

/// Each pair comes strictly before the next.
pub open spec fn pairs_sorted(v: Seq<(Seq<char>, Seq<char>)>) -> bool {
    forall|i: int, j: int| 0 <= i < j < v.len() ==> pair_lt(#[trigger] v[i], #[trigger] v[j])
}

proof fn lemma_pair_lt_transitive(
    p: (Seq<char>, Seq<char>),
    q: (Seq<char>, Seq<char>),
    r: (Seq<char>, Seq<char>),
)
    requires
        pair_lt(p, q),
        pair_lt(q, r),
    ensures
        pair_lt(p, r),
{
    if text_lt(p.0, q.0) {
        if text_lt(q.0, r.0) {
            lemma_text_lt_transitive(p.0, q.0, r.0);
        }
    } else if text_lt(q.0, r.0) {
    } else {
        lemma_text_lt_transitive(p.1, q.1, r.1);
    }
}

proof fn lemma_pair_lt_total(p: (Seq<char>, Seq<char>), q: (Seq<char>, Seq<char>))
    ensures
        p == q || pair_lt(p, q) || pair_lt(q, p),
{
    lemma_text_le_total(p.0, q.0);
    lemma_text_le_total(p.1, q.1);
}

proof fn lemma_pair_lt_asymmetric(p: (Seq<char>, Seq<char>), q: (Seq<char>, Seq<char>))
    requires
        pair_lt(p, q),
    ensures
        !pair_lt(q, p),
        p != q,
{
    if text_lt(p.0, q.0) && text_le(q.0, p.0) {
        lemma_text_le_antisymmetric(p.0, q.0);
    }
    if p.0 == q.0 && text_lt(p.1, q.1) && text_le(q.1, p.1) {
        lemma_text_le_antisymmetric(p.1, q.1);
    }
}

/// Strictly sorted pairs hold none twice.
pub proof fn lemma_pairs_sorted_distinct(v: Seq<(Seq<char>, Seq<char>)>)
    requires
        pairs_sorted(v),
    ensures
        v.no_duplicates(),
{
    assert forall|i: int, j: int| 0 <= i < v.len() && 0 <= j < v.len() && i != j implies v[i]
        != v[j] by {
        if i < j {
            lemma_pair_lt_asymmetric(v[i], v[j]);
        } else {
            lemma_pair_lt_asymmetric(v[j], v[i]);
        }
    }
}

fn pair_before(p: &(String, String), q: &(String, String)) -> (r: bool)
    ensures
        r == pair_lt((p.0@, p.1@), (q.0@, q.1@)),
{
    let first_eq = str_eq(p.0.as_str(), q.0.as_str());
    if !first_eq {
        str_le(p.0.as_str(), q.0.as_str())
    } else {
        str_le(p.1.as_str(), q.1.as_str()) && !str_eq(p.1.as_str(), q.1.as_str())
    }
}

/// Adds a pair to strictly sorted pairs, keeping them so.
#[verifier::spinoff_prover]
fn sorted_pair_insert(ps: &mut Vec<(String, String)>, pr: &(String, String))
    requires
        pairs_sorted(id_pair_views(old(ps)@)),
    ensures
        pairs_sorted(id_pair_views(final(ps)@)),
        id_pair_views(final(ps)@).to_set() == id_pair_views(old(ps)@).to_set().insert(
            (pr.0@, pr.1@),
        ),
{
    let ghost before = id_pair_views(ps@);
    let ghost x = (pr.0@, pr.1@);
    let n = ps.len();
    let mut p: usize = 0;
    let mut searching = true;
    while searching && p < n
        invariant
            n == ps@.len(),
            p <= n,
            before == id_pair_views(ps@),
            x == (pr.0@, pr.1@),
            forall|k: int| 0 <= k < p ==> pair_lt(#[trigger] before[k], x),
            !searching ==> p < n && !pair_lt(before[p as int], x),
        decreases if searching { n - p + 1 } else { 0 },
    {
        let ahead = pair_before(&ps[p], pr);
        assert(before[p as int] == (ps@[p as int].0@, ps@[p as int].1@));
        if ahead {
            p = p + 1;
        } else {
            searching = false;
        }
    }
    if p < n {
        proof {
            assert(before[p as int] == (ps@[p as int].0@, ps@[p as int].1@));
            lemma_pair_lt_total(before[p as int], x);
        }
    }
    if p < n && str_eq(ps[p].0.as_str(), pr.0.as_str()) && str_eq(ps[p].1.as_str(), pr.1.as_str()) {
        assert(before[p as int] == x);
        assert(before.to_set() =~= before.to_set().insert(x));
        return;
    }
    let item = (pr.0.clone(), pr.1.clone());
    ps.insert(p, item);
    let ghost after = id_pair_views(ps@);
    assert(after =~= before.insert(p as int, x));
    assert forall|i: int, j: int| 0 <= i < j < after.len() implies pair_lt(
        #[trigger] after[i],
        #[trigger] after[j],
    ) by {
        if j < p {
            assert(after[i] == before[i] && after[j] == before[j]);
        } else if j == p {
            assert(after[i] == before[i]);
        } else if i == p {
            assert(after[j] == before[j - 1]);
            assert(pair_lt(x, before[p as int]));
            if j - 1 > p {
                assert(pair_lt(before[p as int], before[j - 1]));
                lemma_pair_lt_transitive(x, before[p as int], before[j - 1]);
            }
        } else if i < p {
            assert(after[i] == before[i] && after[j] == before[j - 1]);
            assert(pair_lt(before[i], x));
            lemma_pair_lt_transitive(before[i], x, before[p as int]);
            if j - 1 > p {
                assert(pair_lt(before[p as int], before[j - 1]));
                lemma_pair_lt_transitive(before[i], before[p as int], before[j - 1]);
            }
        } else {
            assert(after[i] == before[i - 1] && after[j] == before[j - 1]);
        }
    }
    assert forall|y: (Seq<char>, Seq<char>)| after.contains(y) implies before.contains(y) || y
        == x by {
        let k = choose|k: int| 0 <= k < after.len() && after[k] == y;
        if k < p {
            assert(before[k] == y);
        } else if k > p {
            assert(before[k - 1] == y);
        }
    }
    assert forall|y: (Seq<char>, Seq<char>)| before.contains(y) || y == x implies after.contains(
        y,
    ) by {
        if y == x {
            assert(after[p as int] == y);
        } else {
            let k = choose|k: int| 0 <= k < before.len() && before[k] == y;
            if k < p {
                assert(after[k] == y);
            } else {
                assert(after[k + 1] == y);
            }
        }
    }
    assert(after.to_set() =~= before.to_set().insert(x));
}

/// The same pairs, strictly sorted by first and then second text.
fn sorted_pairs(ps: &Vec<(String, String)>) -> (r: Vec<(String, String)>)
    ensures
        pairs_sorted(id_pair_views(r@)),
        id_pair_views(r@).to_set() == id_pair_views(ps@).to_set(),
{
    let mut r: Vec<(String, String)> = Vec::new();
    let n = ps.len();
    let mut i: usize = 0;
    assert(id_pair_views(r@).to_set() =~= id_pair_views(ps@).take(0).to_set());
    while i < n
        invariant
            n == ps@.len(),
            i <= n,
            pairs_sorted(id_pair_views(r@)),
            id_pair_views(r@).to_set() == id_pair_views(ps@).take(i as int).to_set(),
        decreases n - i,
    {
        sorted_pair_insert(&mut r, &ps[i]);
        assert(id_pair_views(ps@).take(i + 1) =~= id_pair_views(ps@).take(i as int).push(
            (ps@[i as int].0@, ps@[i as int].1@),
        ));
        proof {
            id_pair_views(ps@).take(i as int).lemma_push_to_set_commute(
                (ps@[i as int].0@, ps@[i as int].1@),
            );
        }
        i = i + 1;
    }
    assert(id_pair_views(ps@).take(n as int) =~= id_pair_views(ps@));
    r
}

/// The names of the groups that hold both `a` and `b`, sorted, each once.
#[verifier::spinoff_prover]
fn pair_labels(gs: &Vec<Group>, a: &String, b: &String) -> (r: Vec<String>)
    ensures
        strictly_sorted(string_views(r@)),
        string_views(r@).to_set() == Set::new(
            |l: Seq<char>|
                exists|x: int| 0 <= x < gs@.len() && #[trigger] co_members(gs@, x, a@, b@) && gs@[x].label@ == l,
        ),
{
    let mut r: Vec<String> = Vec::new();
    let n = gs.len();
    let mut x: usize = 0;
    assert(string_views(r@) =~= Seq::<Seq<char>>::empty());
    while x < n
        invariant
            n == gs@.len(),
            x <= n,
            strictly_sorted(string_views(r@)),
            string_views(r@).to_set() == Set::new(
                |l: Seq<char>|
                    exists|y: int| 0 <= y < x && #[trigger] co_members(gs@, y, a@, b@) && gs@[y].label@ == l,
            ),
        decreases n - x,
    {
        let ghost before = string_views(r@).to_set();
        if contains_string(&gs[x].members, a) && contains_string(&gs[x].members, b) {
            sorted_insert(&mut r, &gs[x].label);
            assert(co_members(gs@, x as int, a@, b@));
        }
        assert(string_views(r@).to_set() =~= Set::new(
            |l: Seq<char>|
                exists|y: int| 0 <= y < x + 1 && #[trigger] co_members(gs@, y, a@, b@) && gs@[y].label@ == l,
        ));
        x = x + 1;
    }
    r
}


/// `a` and `b` are shown, `a` comes first, and they share a group.
pub open spec fn linked(rows: Seq<StructuralRow>, shown: Seq<Seq<char>>, a: Seq<char>, b: Seq<char>) -> bool {
    text_lt(a, b) && exists|g: Seq<char>|
        #![trigger in_group(rows, shown, g, a), in_group(rows, shown, g, b)]
        in_group(rows, shown, g, a) && in_group(rows, shown, g, b)
}

/// The names of the groups that `a` and `b` share.
pub open spec fn shared_labels(rows: Seq<StructuralRow>, shown: Seq<Seq<char>>, a: Seq<char>, b: Seq<char>) -> Set<
    Seq<char>,
> {
    Set::new(
        |l: Seq<char>|
            exists|g: Seq<char>|
                #![trigger in_group(rows, shown, g, a), in_group(rows, shown, g, b)]
                in_group(rows, shown, g, a) && in_group(rows, shown, g, b) && group_label(rows, shown, g)
                    == Some(l),
    )
}

/// `v` is the first three of the names in order, or all of them when
/// there are fewer.
pub open spec fn first_labels(v: Seq<Seq<char>>, names: Set<Seq<char>>) -> bool {
    exists|l: Seq<Seq<char>>|
        strictly_sorted(l) && #[trigger] l.to_set() == names && v == l.take(
            if l.len() < 3 {
                l.len() as int
            } else {
                3
            },
        )
}

pub open spec fn structural_pair_views(v: Seq<StructuralPair>) -> Seq<(Seq<char>, Seq<char>)> {
    v.map_values(|p: StructuralPair| (p.source@, p.target@))
}

proof fn lemma_groups_link(
    rows: Seq<StructuralRow>,
    shown: Seq<Seq<char>>,
    gs: Seq<Group>,
    a: Seq<char>,
    b: Seq<char>,
)
    requires
        groups_wf(rows, shown, gs),
    ensures
        (exists|x: int| 0 <= x < gs.len() && #[trigger] co_members(gs, x, a, b)) == (exists|g: Seq<char>|
            #![trigger in_group(rows, shown, g, a), in_group(rows, shown, g, b)]
            in_group(rows, shown, g, a) && in_group(rows, shown, g, b)),
        Set::new(
            |l: Seq<char>|
                exists|x: int| 0 <= x < gs.len() && #[trigger] co_members(gs, x, a, b) && gs[x].label@ == l,
        ) == shared_labels(rows, shown, a, b),
{
    if exists|x: int| 0 <= x < gs.len() && #[trigger] co_members(gs, x, a, b) {
        let x = choose|x: int| 0 <= x < gs.len() && #[trigger] co_members(gs, x, a, b);
        assert(in_group(rows, shown, gs[x].id@, a) && in_group(rows, shown, gs[x].id@, b));
    }
    if exists|g: Seq<char>|
        #![trigger in_group(rows, shown, g, a), in_group(rows, shown, g, b)]
        in_group(rows, shown, g, a) && in_group(rows, shown, g, b) {
        let g = choose|g: Seq<char>|
            #![trigger in_group(rows, shown, g, a), in_group(rows, shown, g, b)]
            in_group(rows, shown, g, a) && in_group(rows, shown, g, b);
        let x = choose|x: int| 0 <= x < gs.len() && #[trigger] gs[x].id@ == g;
        assert(co_members(gs, x, a, b));
    }
    let from_groups = Set::new(
        |l: Seq<char>|
            exists|x: int| 0 <= x < gs.len() && #[trigger] co_members(gs, x, a, b) && gs[x].label@ == l,
    );
    assert forall|l: Seq<char>| from_groups.contains(l) implies shared_labels(rows, shown, a, b).contains(l) by {
        let x = choose|x: int| 0 <= x < gs.len() && #[trigger] co_members(gs, x, a, b) && gs[x].label@ == l;
        let g = gs[x].id@;
        assert(in_group(rows, shown, g, a) && in_group(rows, shown, g, b));
        assert(group_label(rows, shown, g) == Some(l));
    }
    assert forall|l: Seq<char>| shared_labels(rows, shown, a, b).contains(l) implies from_groups.contains(l) by {
        let g = choose|g: Seq<char>|
            #![trigger in_group(rows, shown, g, a), in_group(rows, shown, g, b)]
            in_group(rows, shown, g, a) && in_group(rows, shown, g, b) && group_label(rows, shown, g)
                == Some(l);
        let x = choose|x: int| 0 <= x < gs.len() && #[trigger] gs[x].id@ == g;
        assert(co_members(gs, x, a, b));
        assert(gs[x].label@ == l);
    }
    assert(from_groups =~= shared_labels(rows, shown, a, b));
}

/// The pairs of shown knowledge that share a source, a topic or a tag: each
/// pair once, the smaller id first, sorted by the first id and then the
/// second, with the names of up to three shared groups in order (see
/// `linked`, `shared_labels`, `first_labels`).
#[verifier::spinoff_prover]
pub fn structural_pairs(rows: &Vec<StructuralRow>, selected: &Vec<String>) -> (r: Vec<StructuralPair>)
    ensures
        structural_pair_views(r@).no_duplicates(),
        pairs_sorted(structural_pair_views(r@)),
        forall|k: int|
            0 <= k < r@.len() ==> linked(
                rows@,
                string_views(selected@),
                #[trigger] r@[k].source@,
                r@[k].target@,
            ),
        forall|a: Seq<char>, b: Seq<char>|
            linked(rows@, string_views(selected@), a, b) ==> #[trigger] structural_pair_views(
                r@,
            ).contains((a, b)),
        forall|k: int|
            0 <= k < r@.len() ==> first_labels(
                string_views(#[trigger] r@[k].labels@),
                shared_labels(rows@, string_views(selected@), r@[k].source@, r@[k].target@),
            ),
{
    let ghost shown = string_views(selected@);
    let gs = collect_groups(rows, selected);
    let found = collect_pairs(&gs);
    let ps = sorted_pairs(&found);
    proof {
        lemma_pairs_sorted_distinct(id_pair_views(ps@));
        assert forall|pr: (Seq<char>, Seq<char>)| #[trigger]
            id_pair_views(ps@).contains(pr) == id_pair_views(found@).contains(pr) by {
            assert(id_pair_views(ps@).to_set().contains(pr) == id_pair_views(found@).to_set().contains(pr));
        }
    }
    let mut r: Vec<StructuralPair> = Vec::new();
    let n = ps.len();
    let mut i: usize = 0;
    assert(structural_pair_views(r@) =~= id_pair_views(ps@).take(0));
    while i < n
        invariant
            n == ps@.len(),
            i <= n,
            shown == string_views(selected@),
            groups_wf(rows@, shown, gs@),
            id_pair_views(ps@).no_duplicates(),
            forall|pr: (Seq<char>, Seq<char>)|
                #[trigger] id_pair_views(ps@).contains(pr) ==> text_lt(pr.0, pr.1) && exists|x: int|
                    0 <= x < gs@.len() && #[trigger] co_members(gs@, x, pr.0, pr.1),
            structural_pair_views(r@) == id_pair_views(ps@).take(i as int),
            forall|k: int|
                0 <= k < r@.len() ==> first_labels(
                    string_views(#[trigger] r@[k].labels@),
                    shared_labels(rows@, shown, r@[k].source@, r@[k].target@),
                ),
        decreases n - i,
    {
        let a = &ps[i].0;
        let b = &ps[i].1;
        let labels = pair_labels(&gs, a, b);
        let visible = take_strings(&labels, 3);
        let ghost before = r@;
        proof {
            lemma_groups_link(rows@, shown, gs@, a@, b@);
            let l = string_views(labels@);
            assert(string_views(visible@) =~= l.take(
                if l.len() < 3 {
                    l.len() as int
                } else {
                    3
                },
            ));
            assert(first_labels(string_views(visible@), shared_labels(rows@, shown, a@, b@)));
        }
        let sa = a.clone();
        let sb = b.clone();
        r.push(StructuralPair { source: sa, target: sb, labels: visible });
        assert(r@ == before.push(r@[before.len() as int]));
        assert(structural_pair_views(r@) =~= structural_pair_views(before).push((a@, b@)));
        assert(id_pair_views(ps@)[i as int] == (a@, b@));
        assert(id_pair_views(ps@).take(i + 1) =~= id_pair_views(ps@).take(i as int).push((a@, b@)));
        assert(structural_pair_views(r@) =~= id_pair_views(ps@).take(i + 1));
        assert forall|k: int| 0 <= k < r@.len() implies first_labels(
            string_views(#[trigger] r@[k].labels@),
            shared_labels(rows@, shown, r@[k].source@, r@[k].target@),
        ) by {
            if k < before.len() {
                assert(r@[k] == before[k]);
            }
        }
        i = i + 1;
    }
    assert(id_pair_views(ps@).take(n as int) =~= id_pair_views(ps@));
    assert forall|k: int| 0 <= k < r@.len() implies linked(
        rows@,
        shown,
        #[trigger] r@[k].source@,
        r@[k].target@,
    ) by {
        let pr = structural_pair_views(r@)[k];
        assert(id_pair_views(ps@).contains(pr));
        lemma_groups_link(rows@, shown, gs@, pr.0, pr.1);
    }
    assert forall|a: Seq<char>, b: Seq<char>| linked(rows@, shown, a, b) implies #[trigger] structural_pair_views(
        r@,
    ).contains((a, b)) by {
        lemma_groups_link(rows@, shown, gs@, a, b);
        let x = choose|x: int| 0 <= x < gs@.len() && #[trigger] co_members(gs@, x, a, b);
        assert(id_pair_views(ps@).contains((a, b)));
    }
    r
}


/// The kinds of group that link knowledge in the graph.
pub fn structural_kind(kind: &str) -> (r: Result<(), String>)
    ensures
        match r {
            Ok(()) => kind@ == "source"@ || kind@ == "topic"@ || kind@ == "tag"@,
            Err(e) => e@ == "unsupported graph structural edge kind"@ && !(kind@ == "source"@
                || kind@ == "topic"@ || kind@ == "tag"@),
        },
{
    if str_eq(kind, "source") || str_eq(kind, "topic") || str_eq(kind, "tag") {
        Ok(())
    } else {
        Err("unsupported graph structural edge kind".to_string())
    }
}

/// Why two pieces of knowledge are linked, by the kind of group they share.
pub open spec fn structural_reason_of(kind: Seq<char>, label: Seq<char>) -> Seq<char> {
    if kind == "source"@ {
        "共享来源："@ + label
    } else if kind == "topic"@ {
        "共享主题："@ + label
    } else {
        "共享标签："@ + label
    }
}

/// The id, label and reason of the edge of a pair that shares groups of a
/// kind: the id is the kind and both ids joined by `:`, the label the
/// shown names joined by ` · `.
pub fn structural_edge_text(kind: &str, pair: &StructuralPair) -> (r: (String, String, String))
    ensures
        r.0@ == kind@ + ":"@ + pair.source@ + ":"@ + pair.target@,
        r.1@ == join(string_views(pair.labels@), " · "@),
        r.2@ == structural_reason_of(kind@, r.1@),
{
    let mut id = kind.to_string();
    push_str(&mut id, ":");
    push_str(&mut id, pair.source.as_str());
    push_str(&mut id, ":");
    push_str(&mut id, pair.target.as_str());
    let label = join_strings(&pair.labels, " · ");
    let mut reason = if str_eq(kind, "source") {
        "共享来源：".to_string()
    } else if str_eq(kind, "topic") {
        "共享主题：".to_string()
    } else {
        "共享标签：".to_string()
    };
    push_str(&mut reason, label.as_str());
    (id, label, reason)
}


// ---------------------------------------------------------------------------
// The order of nodes in the overview
// ---------------------------------------------------------------------------

/// How many edge ends belong to the knowledge.
pub open spec fn degree_of(edges: Seq<(Seq<char>, Seq<char>)>, id: Seq<char>) -> nat
    decreases edges.len(),
{
    if edges.len() == 0 {
        0
    } else {
        degree_of(edges.drop_last(), id) + (if edges.last().0 == id {
            1nat
        } else {
            0nat
        }) + (if edges.last().1 == id {
            1nat
        } else {
            0nat
        })
    }
}

/// The number of edge ends that belong to the knowledge (see `degree_of`).
pub fn edge_degree(edges: &Vec<(String, String)>, id: &str) -> (r: usize)
    requires
        edges@.len() <= usize::MAX / 2,
    ensures
        r == degree_of(id_pair_views(edges@), id@),
{
    let ghost ev = id_pair_views(edges@);
    let mut r: usize = 0;
    let n = edges.len();
    let mut i: usize = 0;
    assert(ev.take(0) =~= Seq::<(Seq<char>, Seq<char>)>::empty());
    while i < n
        invariant
            n == edges@.len(),
            n <= usize::MAX / 2,
            ev == id_pair_views(edges@),
            i <= n,
            r <= 2 * i,
            r == degree_of(ev.take(i as int), id@),
        decreases n - i,
    {
        assert(ev.take(i + 1).drop_last() =~= ev.take(i as int));
        assert(ev.take(i + 1).last() == (edges@[i as int].0@, edges@[i as int].1@));
        if str_eq(edges[i].0.as_str(), id) {
            r = r + 1;
        }
        if str_eq(edges[i].1.as_str(), id) {
            r = r + 1;
        }
        i = i + 1;
    }
    assert(ev.take(n as int) =~= ev);
    r
}

/// In the overview, `a` is shown no later than `b`: more edges first, then
/// the more recently updated, then the smaller id.
pub open spec fn node_le(edges: Seq<(Seq<char>, Seq<char>)>, a: KnowledgeGraphNode, b: KnowledgeGraphNode) -> bool {
    let da = degree_of(edges, a.id@);
    let db = degree_of(edges, b.id@);
    da > db || (da == db && (a.updated_at > b.updated_at || (a.updated_at == b.updated_at
        && text_le(a.id@, b.id@))))
}

/// The nodes are in overview order.
pub open spec fn nodes_ordered(edges: Seq<(Seq<char>, Seq<char>)>, s: Seq<KnowledgeGraphNode>) -> bool {
    forall|i: int, j: int| 0 <= i < j < s.len() ==> node_le(edges, #[trigger] s[i], #[trigger] s[j])
}

proof fn lemma_node_le_total(edges: Seq<(Seq<char>, Seq<char>)>, a: KnowledgeGraphNode, b: KnowledgeGraphNode)
    ensures
        node_le(edges, a, b) || node_le(edges, b, a),
{
    lemma_text_le_total(a.id@, b.id@);
}

proof fn lemma_node_le_transitive(
    edges: Seq<(Seq<char>, Seq<char>)>,
    a: KnowledgeGraphNode,
    b: KnowledgeGraphNode,
    c: KnowledgeGraphNode,
)
    requires
        node_le(edges, a, b),
        node_le(edges, b, c),
    ensures
        node_le(edges, a, c),
{
    if degree_of(edges, a.id@) == degree_of(edges, b.id@) && degree_of(edges, b.id@) == degree_of(
        edges,
        c.id@,
    ) && a.updated_at == b.updated_at && b.updated_at == c.updated_at {
        lemma_text_le_transitive(a.id@, b.id@, c.id@);
    }
}

proof fn lemma_insert_nodes_ordered(
    edges: Seq<(Seq<char>, Seq<char>)>,
    s: Seq<KnowledgeGraphNode>,
    p: int,
    t: KnowledgeGraphNode,
)
    requires
        nodes_ordered(edges, s),
        0 <= p <= s.len(),
        forall|k: int| 0 <= k < p ==> node_le(edges, #[trigger] s[k], t),
        forall|k: int| p <= k < s.len() ==> node_le(edges, t, #[trigger] s[k]),
    ensures
        nodes_ordered(edges, s.insert(p, t)),
{
    let u = s.insert(p, t);
    assert forall|i: int, j: int| 0 <= i < j < u.len() implies node_le(edges, #[trigger] u[i], #[trigger] u[j]) by {
        if i < p {
            assert(u[i] == s[i]);
            if j < p {
                assert(u[j] == s[j]);
            } else if j == p {
                assert(u[j] == t);
            } else {
                assert(u[j] == s[j - 1]);
            }
        } else if i == p {
            assert(u[i] == t);
            assert(u[j] == s[j - 1]);
        } else {
            assert(u[i] == s[i - 1]);
            assert(u[j] == s[j - 1]);
        }
    }
}

/// Whether `a` is shown no later than `b` (see `node_le`).
pub fn node_listed_before(a: &KnowledgeGraphNode, b: &KnowledgeGraphNode, edges: &Vec<(String, String)>) -> (r:
    bool)
    requires
        edges@.len() <= usize::MAX / 2,
    ensures
        r == node_le(id_pair_views(edges@), *a, *b),
{
    let da = edge_degree(edges, a.id.as_str());
    let db = edge_degree(edges, b.id.as_str());
    if da != db {
        da > db
    } else if a.updated_at != b.updated_at {
        a.updated_at > b.updated_at
    } else {
        str_le(a.id.as_str(), b.id.as_str())
    }
}

fn node_position(sorted: &Vec<KnowledgeGraphNode>, t: &KnowledgeGraphNode, edges: &Vec<(String, String)>) -> (p:
    usize)
    requires
        edges@.len() <= usize::MAX / 2,
        nodes_ordered(id_pair_views(edges@), sorted@),
    ensures
        p <= sorted@.len(),
        forall|k: int| 0 <= k < p ==> node_le(id_pair_views(edges@), #[trigger] sorted@[k], *t),
        forall|k: int| p <= k < sorted@.len() ==> node_le(id_pair_views(edges@), *t, #[trigger] sorted@[k]),
{
    let ghost ev = id_pair_views(edges@);
    let n = sorted.len();
    let mut i: usize = 0;
    while i < n
        invariant
            n == sorted@.len(),
            edges@.len() <= usize::MAX / 2,
            ev == id_pair_views(edges@),
            i <= n,
            nodes_ordered(ev, sorted@),
            forall|k: int| 0 <= k < i ==> node_le(ev, #[trigger] sorted@[k], *t),
        decreases n - i,
    {
        if !node_listed_before(&sorted[i], t, edges) {
            proof {
                lemma_node_le_total(ev, sorted@[i as int], *t);
                assert forall|k: int| i <= k < sorted@.len() implies node_le(ev, *t, #[trigger] sorted@[k]) by {
                    if k > i {
                        assert(node_le(ev, sorted@[i as int], sorted@[k]));
                        lemma_node_le_transitive(ev, *t, sorted@[i as int], sorted@[k]);
                    }
                }
            }
            return i;
        }
        i = i + 1;
    }
    i
}

/// The nodes of the overview in order (see `node_le`); the edges are those
/// shown, by the ids of their ends.
#[verifier::spinoff_prover]
pub fn order_overview_nodes(nodes: Vec<KnowledgeGraphNode>, edges: &Vec<(String, String)>) -> (r: Vec<
    KnowledgeGraphNode,
>)
    requires
        edges@.len() <= usize::MAX / 2,
    ensures
        r@.to_multiset() == nodes@.to_multiset(),
        nodes_ordered(id_pair_views(edges@), r@),
{
    broadcast use vstd::seq_lib::group_to_multiset_ensures, vstd::multiset::group_multiset_axioms;

    let ghost ev = id_pair_views(edges@);
    let mut sorted: Vec<KnowledgeGraphNode> = Vec::new();
    let mut rest = nodes;
    assert(sorted@.to_multiset().add(rest@.to_multiset()) =~= nodes@.to_multiset());
    while rest.len() > 0
        invariant
            edges@.len() <= usize::MAX / 2,
            ev == id_pair_views(edges@),
            sorted@.to_multiset().add(rest@.to_multiset()) == nodes@.to_multiset(),
            nodes_ordered(ev, sorted@),
        decreases rest@.len(),
    {
        let ghost r0 = rest@;
        let ghost s0 = sorted@;
        let t = rest.pop().unwrap();
        assert(r0 =~= rest@.push(t));
        let p = node_position(&sorted, &t, edges);
        proof {
            lemma_insert_nodes_ordered(ev, s0, p as int, t);
        }
        sorted.insert(p, t);
        proof {
            assert(sorted@ == s0.insert(p as int, t));
            vstd::seq_lib::to_multiset_insert(s0, p as int, t);
            vstd::seq_lib::to_multiset_build(rest@, t);
            assert(sorted@.to_multiset().add(rest@.to_multiset()) =~= s0.to_multiset().add(
                r0.to_multiset(),
            ));
        }
    }
    assert(rest@ =~= Seq::<KnowledgeGraphNode>::empty());
    assert(sorted@.to_multiset() =~= nodes@.to_multiset());
    sorted
}


proof fn lemma_node_le_antisymmetric(
    edges: Seq<(Seq<char>, Seq<char>)>,
    a: KnowledgeGraphNode,
    b: KnowledgeGraphNode,
)
    requires
        node_le(edges, a, b),
        node_le(edges, b, a),
    ensures
        a.id@ == b.id@,
{
    lemma_text_le_antisymmetric(a.id@, b.id@);
}

/// Nodes with distinct ids have a single overview order: two orderings of
/// the same nodes, each in overview order, are the same.
#[verifier::spinoff_prover]
pub proof fn lemma_node_order_unique(
    edges: Seq<(Seq<char>, Seq<char>)>,
    s1: Seq<KnowledgeGraphNode>,
    s2: Seq<KnowledgeGraphNode>,
)
    requires
        nodes_ordered(edges, s1),
        nodes_ordered(edges, s2),
        s1.to_multiset() == s2.to_multiset(),
        forall|i: int, j: int| 0 <= i < j < s1.len() ==> #[trigger] s1[i].id@ != #[trigger] s1[j].id@,
    ensures
        s1 == s2,
    decreases s1.len(),
{
    broadcast use vstd::seq_lib::group_to_multiset_ensures, vstd::multiset::group_multiset_axioms;

    vstd::seq_lib::to_multiset_len(s1);
    vstd::seq_lib::to_multiset_len(s2);
    if s1.len() == 0 {
        assert(s1 =~= s2);
    } else {
        let a = s1[0];
        let b = s2[0];
        assert(s2.to_multiset().count(b) > 0);
        assert(s1.contains(b));
        let j = choose|j: int| 0 <= j < s1.len() && s1[j] == b;
        assert(s1.to_multiset().count(a) > 0);
        assert(s2.contains(a));
        let i = choose|i: int| 0 <= i < s2.len() && s2[i] == a;
        if j > 0 {
            assert(node_le(edges, s1[0], s1[j]));
        }
        if i > 0 {
            assert(node_le(edges, s2[0], s2[i]));
        }
        lemma_node_le_total(edges, a, b);
        if j != 0 {
            lemma_node_le_antisymmetric(edges, a, b);
            assert(s1[0].id@ == s1[j].id@);
        }
        assert(a == b);
        let r1 = s1.remove(0);
        let r2 = s2.remove(0);
        assert(r1.to_multiset() == s1.to_multiset().remove(a));
        assert(r2.to_multiset() == s2.to_multiset().remove(b));
        assert forall|x: int, y: int| 0 <= x < y < r1.len() implies node_le(edges, #[trigger] r1[x], #[trigger] r1[y]) by {
            assert(r1[x] == s1[x + 1] && r1[y] == s1[y + 1]);
        }
        assert forall|x: int, y: int| 0 <= x < y < r2.len() implies node_le(edges, #[trigger] r2[x], #[trigger] r2[y]) by {
            assert(r2[x] == s2[x + 1] && r2[y] == s2[y + 1]);
        }
        assert forall|x: int, y: int| 0 <= x < y < r1.len() implies #[trigger] r1[x].id@ != #[trigger] r1[y].id@ by {
            assert(r1[x] == s1[x + 1] && r1[y] == s1[y + 1]);
        }
        lemma_node_order_unique(edges, r1, r2);
        assert(s1 =~= seq![a] + r1);
        assert(s2 =~= seq![b] + r2);
    }
}

} // verus!
