//! The task center: background AI work of every kind, newest first.
use vstd::prelude::*;
use crate::search::{lemma_text_le_antisymmetric, lemma_text_le_total, lemma_text_le_transitive, str_le, text_le};
use crate::text::str_eq;

verus! {

/// How long a pending or running job may go without an update, in
/// milliseconds, before it counts as stale.
pub const STALE_TASK_MS: i64 = 600000;

/// The error a stale job is failed with.
pub const STALE_TASK_ERROR: &'static str = "AI processing timed out before completion; retry to continue.";

/// A background AI task as the task center lists it.
#[derive(Clone, Debug)]
pub struct AiTaskRecord {
    pub id: String,
    pub task_type: String,
    pub status: String,
    pub title: String,
    pub knowledge_unit_id: Option<String>,
    pub inbox_id: Option<String>,
    pub error: Option<String>,
    pub created_at: i64,
    pub updated_at: i64,
    pub retryable: bool,
}

/// The status of a librarian or curation run in task terms: `ready` is
/// `completed`, any other status stays as it is.
pub open spec fn run_status(status: Seq<char>) -> Seq<char> {
    if status == "ready"@ {
        "completed"@
    } else {
        status
    }
}

/// `a` is listed no later than `b`: updated later, or as late and created
/// later, or both as late and its id no greater.
pub open spec fn task_le(a: AiTaskRecord, b: AiTaskRecord) -> bool {
    a.updated_at > b.updated_at || (a.updated_at == b.updated_at && (a.created_at > b.created_at
        || (a.created_at == b.created_at && text_le(a.id@, b.id@))))
}

/// The tasks are in listing order.
pub open spec fn tasks_ordered(s: Seq<AiTaskRecord>) -> bool {
    forall|i: int, j: int| 0 <= i < j < s.len() ==> task_le(#[trigger] s[i], #[trigger] s[j])
}

/// The first `n` elements of `s`, or all of them when there are fewer.
pub open spec fn first_n(s: Seq<AiTaskRecord>, n: int) -> Seq<AiTaskRecord> {
    if n < s.len() {
        s.take(n)
    } else {
        s
    }
}

/// The number of tasks whose status is one of `statuses`.
pub open spec fn count_status(s: Seq<AiTaskRecord>, statuses: Seq<Seq<char>>) -> int
    decreases s.len(),
{
    if s.len() == 0 {
        0
    } else {
        count_status(s.drop_last(), statuses) + if statuses.contains(s.last().status@) {
            1int
        } else {
            0int
        }
    }
}

/// Any two tasks can be put in listing order.
pub proof fn lemma_task_le_total(a: AiTaskRecord, b: AiTaskRecord)
    ensures
        task_le(a, b) || task_le(b, a),
{
    lemma_text_le_total(a.id@, b.id@);
}

/// Listing order is transitive.
pub proof fn lemma_task_le_transitive(a: AiTaskRecord, b: AiTaskRecord, c: AiTaskRecord)
    requires
        task_le(a, b),
        task_le(b, c),
    ensures
        task_le(a, c),
{
    if a.updated_at == b.updated_at && b.updated_at == c.updated_at && a.created_at
        == b.created_at && b.created_at == c.created_at {
        lemma_text_le_transitive(a.id@, b.id@, c.id@);
    }
}

/// Two tasks each listed no later than the other have the same times and id.
pub proof fn lemma_task_le_antisymmetric(a: AiTaskRecord, b: AiTaskRecord)
    requires
        task_le(a, b),
        task_le(b, a),
    ensures
        a.updated_at == b.updated_at,
        a.created_at == b.created_at,
        a.id@ == b.id@,
{
    lemma_text_le_antisymmetric(a.id@, b.id@);
}

proof fn lemma_insert_ordered(s: Seq<AiTaskRecord>, p: int, t: AiTaskRecord)
    requires
        tasks_ordered(s),
        0 <= p <= s.len(),
        forall|k: int| 0 <= k < p ==> task_le(#[trigger] s[k], t),
        forall|k: int| p <= k < s.len() ==> task_le(t, #[trigger] s[k]),
    ensures
        tasks_ordered(s.insert(p, t)),
{
    let u = s.insert(p, t);
    assert forall|i: int, j: int| 0 <= i < j < u.len() implies task_le(#[trigger] u[i], #[trigger] u[j]) by {
        if i < p {
            assert(u[i] == s[i]);
            if j < p {
                assert(u[j] == s[j]);
            } else if j == p {
                assert(u[j] == t);
            } else {
                assert(u[j] == s[j - 1]);
            }
        } else if i == p {
            assert(u[i] == t);
            assert(u[j] == s[j - 1]);
        } else {
            assert(u[i] == s[i - 1]);
            assert(u[j] == s[j - 1]);
        }
    }
}

/// The status of a librarian or curation run in task terms (see
/// `run_status`).
pub fn normalize_run_status<'a>(status: &'a str) -> (r: &'a str)
    ensures
        r@ == run_status(status@),
{
    if str_eq(status, "ready") {
        "completed"
    } else {
        status
    }
}

/// A librarian or curation run as a task: its status normalized, retryable
/// exactly when it failed.
pub fn run_task_record(
    id: String,
    task_type: &str,
    title: &str,
    raw_status: &str,
    error: Option<String>,
    created_at: i64,
    updated_at: i64,
) -> (r: AiTaskRecord)
    ensures
        r.id == id,
        r.task_type@ == task_type@,
        r.title@ == title@,
        r.status@ == run_status(raw_status@),
        r.retryable == (run_status(raw_status@) == "failed"@),
        r.knowledge_unit_id is None,
        r.inbox_id is None,
        r.error == error,
        r.created_at == created_at,
        r.updated_at == updated_at,
{
    let status = normalize_run_status(raw_status).to_string();
    let retryable = str_eq(status.as_str(), "failed");
    AiTaskRecord {
        id,
        task_type: task_type.to_string(),
        status,
        title: title.to_string(),
        knowledge_unit_id: None,
        inbox_id: None,
        error,
        created_at,
        updated_at,
        retryable,
    }
}

/// The update time before which a pending or running job is stale.
pub fn stale_cutoff(now: i64) -> (r: i64)
    ensures
        r == (if now - STALE_TASK_MS < i64::MIN {
            i64::MIN as int
        } else {
            now - STALE_TASK_MS
        }),
{
    if now < i64::MIN + STALE_TASK_MS {
        i64::MIN
    } else {
        now - STALE_TASK_MS
    }
}

/// Whether `a` is listed no later than `b` (see `task_le`).
pub fn task_listed_before(a: &AiTaskRecord, b: &AiTaskRecord) -> (r: bool)
    ensures
        r == task_le(*a, *b),
{
    if a.updated_at != b.updated_at {
        a.updated_at > b.updated_at
    } else if a.created_at != b.created_at {
        a.created_at > b.created_at
    } else {
        str_le(a.id.as_str(), b.id.as_str())
    }
}

fn insert_position(sorted: &Vec<AiTaskRecord>, t: &AiTaskRecord) -> (p: usize)
    requires
        tasks_ordered(sorted@),
    ensures
        p <= sorted@.len(),
        forall|k: int| 0 <= k < p ==> task_le(#[trigger] sorted@[k], *t),
        forall|k: int| p <= k < sorted@.len() ==> task_le(*t, #[trigger] sorted@[k]),
{
    let n = sorted.len();
    let mut i: usize = 0;
    while i < n
        invariant
            n == sorted@.len(),
            i <= n,
            tasks_ordered(sorted@),
            forall|k: int| 0 <= k < i ==> task_le(#[trigger] sorted@[k], *t),
        decreases n - i,
    {
        if !task_listed_before(&sorted[i], t) {
            proof {
                lemma_task_le_total(sorted@[i as int], *t);
                assert forall|k: int| i <= k < sorted@.len() implies task_le(
                    *t,
                    #[trigger] sorted@[k],
                ) by {
                    if k > i {
                        assert(task_le(sorted@[i as int], sorted@[k]));
                        lemma_task_le_transitive(*t, sorted@[i as int], sorted@[k]);
                    }
                }
            }
            return i;
        }
        i = i + 1;
    }
    i
}

/// The tasks in listing order (latest update first, then latest creation,
/// then smallest id), at most `limit` of them.
pub fn order_tasks(tasks: Vec<AiTaskRecord>, limit: usize) -> (r: Vec<AiTaskRecord>)
    ensures
        exists|s: Seq<AiTaskRecord>|
            #![trigger tasks_ordered(s)]
            s.to_multiset() == tasks@.to_multiset() && tasks_ordered(s) && r@ == first_n(
                s,
                limit as int,
            ),
{
    broadcast use vstd::seq_lib::group_to_multiset_ensures, vstd::multiset::group_multiset_axioms;

    let mut sorted: Vec<AiTaskRecord> = Vec::new();
    let mut rest = tasks;
    assert(sorted@.to_multiset().add(rest@.to_multiset()) =~= tasks@.to_multiset());
    while rest.len() > 0
        invariant
            sorted@.to_multiset().add(rest@.to_multiset()) == tasks@.to_multiset(),
            tasks_ordered(sorted@),
        decreases rest@.len(),
    {
        let ghost r0 = rest@;
        let ghost s0 = sorted@;
        let t = rest.pop().unwrap();
        assert(r0 =~= rest@.push(t));
        let p = insert_position(&sorted, &t);
        proof {
            lemma_insert_ordered(s0, p as int, t);
        }
        sorted.insert(p, t);
        proof {
            assert(sorted@ == s0.insert(p as int, t));
            vstd::seq_lib::to_multiset_insert(s0, p as int, t);
            vstd::seq_lib::to_multiset_build(rest@, t);
            assert(sorted@.to_multiset().add(rest@.to_multiset()) =~= s0.to_multiset().add(
                r0.to_multiset(),
            ));
        }
    }
    let ghost full = sorted@;
    assert(rest@ =~= Seq::<AiTaskRecord>::empty());
    assert(full.to_multiset() =~= tasks@.to_multiset());
    sorted.truncate(limit);
    assert(sorted@ =~= first_n(full, limit as int));
    assert(tasks_ordered(full));
    sorted
}

/// The number of active (pending or running) and of failed tasks.
pub fn task_counts(tasks: &Vec<AiTaskRecord>) -> (r: (i64, i64))
    requires
        tasks@.len() <= i64::MAX,
    ensures
        r.0 == count_status(tasks@, seq!["pending"@, "running"@]),
        r.1 == count_status(tasks@, seq!["failed"@]),
{
    let ghost active = seq!["pending"@, "running"@];
    let ghost failed = seq!["failed"@];
    let mut a: i64 = 0;
    let mut f: i64 = 0;
    let n = tasks.len();
    let mut i: usize = 0;
    while i < n
        invariant
            n == tasks@.len(),
            n <= i64::MAX,
            i <= n,
            active == seq!["pending"@, "running"@],
            failed == seq!["failed"@],
            a == count_status(tasks@.take(i as int), active),
            f == count_status(tasks@.take(i as int), failed),
            0 <= a <= i,
            0 <= f <= i,
        decreases n - i,
    {
        proof {
            assert(tasks@.take(i + 1).drop_last() =~= tasks@.take(i as int));
        }
        let s = tasks[i].status.as_str();
        if str_eq(s, "pending") || str_eq(s, "running") {
            assert(active.contains(s@)) by {
                if s@ == "pending"@ {
                    assert(active[0] == s@);
                } else {
                    assert(active[1] == s@);
                }
            }
            a = a + 1;
        } else {
            assert(!active.contains(s@)) by {
                if active.contains(s@) {
                    let k = choose|k: int| 0 <= k < active.len() && active[k] == s@;
                    assert(k == 0 || k == 1);
                }
            }
        }
        if str_eq(s, "failed") {
            assert(failed[0] == s@);
            f = f + 1;
        } else {
            assert(!failed.contains(s@)) by {
                if failed.contains(s@) {
                    let k = choose|k: int| 0 <= k < failed.len() && failed[k] == s@;
                    assert(k == 0);
                }
            }
        }
        i = i + 1;
    }
    assert(tasks@.take(n as int) =~= tasks@);
    (a, f)
}


/// Tasks with distinct ids have a single listing order: two listings of the
/// same tasks, each in listing order, are the same.
#[verifier::spinoff_prover]
pub proof fn lemma_task_order_unique(s1: Seq<AiTaskRecord>, s2: Seq<AiTaskRecord>)
    requires
        tasks_ordered(s1),
        tasks_ordered(s2),
        s1.to_multiset() == s2.to_multiset(),
        forall|i: int, j: int| 0 <= i < j < s1.len() ==> #[trigger] s1[i].id@ != #[trigger] s1[j].id@,
    ensures
        s1 == s2,
    decreases s1.len(),
{
    broadcast use vstd::seq_lib::group_to_multiset_ensures, vstd::multiset::group_multiset_axioms;

    vstd::seq_lib::to_multiset_len(s1);
    vstd::seq_lib::to_multiset_len(s2);
    if s1.len() == 0 {
        assert(s1 =~= s2);
    } else {
        let a = s1[0];
        let b = s2[0];
        assert(s2.to_multiset().count(b) > 0);
        assert(s1.contains(b));
        let j = choose|j: int| 0 <= j < s1.len() && s1[j] == b;
        assert(s1.to_multiset().count(a) > 0);
        assert(s2.contains(a));
        let i = choose|i: int| 0 <= i < s2.len() && s2[i] == a;
        if j > 0 {
            assert(task_le(s1[0], s1[j]));
        }
        if i > 0 {
            assert(task_le(s2[0], s2[i]));
        }
        lemma_task_le_total(a, b);
        if j != 0 {
            lemma_task_le_antisymmetric(a, b);
            assert(s1[0].id@ == s1[j].id@);
        }
        assert(a == b);
        let r1 = s1.remove(0);
        let r2 = s2.remove(0);
        assert(r1.to_multiset() == s1.to_multiset().remove(a));
        assert(r2.to_multiset() == s2.to_multiset().remove(b));
        assert forall|x: int, y: int| 0 <= x < y < r1.len() implies task_le(#[trigger] r1[x], #[trigger] r1[y]) by {
            assert(r1[x] == s1[x + 1] && r1[y] == s1[y + 1]);
        }
        assert forall|x: int, y: int| 0 <= x < y < r2.len() implies task_le(#[trigger] r2[x], #[trigger] r2[y]) by {
            assert(r2[x] == s2[x + 1] && r2[y] == s2[y + 1]);
        }
        assert forall|x: int, y: int| 0 <= x < y < r1.len() implies #[trigger] r1[x].id@ != #[trigger] r1[y].id@ by {
            assert(r1[x] == s1[x + 1] && r1[y] == s1[y + 1]);
        }
        lemma_task_order_unique(r1, r2);
        assert(s1 =~= seq![a] + r1);
        assert(s2 =~= seq![b] + r2);
    }
}

} // verus!
