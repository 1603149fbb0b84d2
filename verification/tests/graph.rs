use zhiforge_knowledge::graph::{clean_optional, graph_bounds, is_truncated};

#[test]
fn graph_bounds_default_and_clamp() {
    assert_eq!(graph_bounds(None, None), (2, 42));
    assert_eq!(graph_bounds(Some(0), Some(3)), (1, 8));
    assert_eq!(graph_bounds(Some(9), Some(500)), (2, 72));
    assert_eq!(graph_bounds(Some(1), Some(50)), (1, 50));
}

#[test]
fn graph_is_truncated_only_when_full_and_more_exists() {
    assert!(is_truncated(100, 42, 42));
    assert!(!is_truncated(42, 42, 42));
    assert!(!is_truncated(100, 10, 42));
    assert!(!is_truncated(-1, 0, 8));
    assert_eq!(clean_optional(Some("  ".into())), None);
}

use zhiforge_knowledge::graph::relation_source;
use zhiforge_knowledge::merge::merge_marker;
use zhiforge_knowledge::text::starts_with;

#[test]
fn relation_source_names_who_confirmed() {
    assert_eq!(relation_source("user"), "手动确认");
    assert_eq!(relation_source("agent"), "AI 助手确认");
    assert_eq!(relation_source("curation"), "知识整理确认");
    assert_eq!(relation_source("merge:abc"), "合并继承");
    assert_eq!(relation_source("inbox"), "已确认关系");
    assert_eq!(relation_source(&merge_marker("m-7")), "合并继承");
}

#[test]
fn starts_with_reads_prefixes() {
    assert!(starts_with("merge:x", "merge:"));
    assert!(starts_with("abc", ""));
    assert!(!starts_with("merg", "merge:"));
    assert!(!starts_with("xmerge:", "merge:"));
}

use zhiforge_knowledge::graph::{
    structural_edge_text, structural_kind, structural_pairs, StructuralPair, StructuralRow,
};
use zhiforge_knowledge::text::join_strings;

fn row(knowledge_id: &str, group_id: &str, label: &str) -> StructuralRow {
    StructuralRow {
        knowledge_id: knowledge_id.into(),
        group_id: group_id.into(),
        label: label.into(),
    }
}

fn shown(ids: &[&str]) -> Vec<String> {
    ids.iter().map(|id| id.to_string()).collect()
}

fn find<'a>(pairs: &'a [StructuralPair], source: &str, target: &str) -> &'a StructuralPair {
    pairs
        .iter()
        .find(|p| p.source == source && p.target == target)
        .expect("pair is listed")
}

#[test]
fn structural_pairs_link_shown_knowledge_sharing_a_group() {
    let rows = vec![
        row("k2", "s1", "Source A"),
        row("hidden", "s1", "Hidden first"),
        row("k1", "s1", "Source A later"),
        row("k3", "t1", "Topic"),
        row("k1", "t1", "Topic"),
        row("k2", "t1", "Topic"),
        row("k3", "t1", "Topic"),
        row("k4", "g9", "Alone"),
    ];
    let pairs = structural_pairs(&rows, &shown(&["k1", "k2", "k3", "k4"]));
    assert_eq!(pairs.len(), 3);
    assert_eq!(find(&pairs, "k1", "k2").labels, vec!["Source A".to_string(), "Topic".to_string()]);
    assert_eq!(find(&pairs, "k1", "k3").labels, vec!["Topic".to_string()]);
    assert_eq!(find(&pairs, "k2", "k3").labels, vec!["Topic".to_string()]);
    assert!(pairs.iter().all(|p| p.source < p.target));
}

#[test]
fn structural_pairs_show_the_first_three_names_in_order() {
    let mut rows = Vec::new();
    for (group, label) in [("g1", "d"), ("g2", "a"), ("g3", "c"), ("g4", "b"), ("g5", "a")] {
        rows.push(row("k1", group, label));
        rows.push(row("k2", group, label));
    }
    let pairs = structural_pairs(&rows, &shown(&["k1", "k2"]));
    assert_eq!(pairs.len(), 1);
    assert_eq!(pairs[0].labels, vec!["a".to_string(), "b".to_string(), "c".to_string()]);
    assert!(structural_pairs(&rows, &shown(&["k1"])).is_empty());
}

#[test]
fn structural_edges_name_their_kind() {
    let pair = StructuralPair {
        source: "k1".into(),
        target: "k2".into(),
        labels: vec!["A".into(), "B".into()],
    };
    let (id, label, reason) = structural_edge_text("topic", &pair);
    assert_eq!(id, "topic:k1:k2");
    assert_eq!(label, "A · B");
    assert_eq!(reason, "共享主题：A · B");
    assert_eq!(structural_edge_text("source", &pair).2, "共享来源：A · B");
    assert_eq!(structural_edge_text("tag", &pair).2, "共享标签：A · B");
    assert!(structural_kind("tag").is_ok());
    assert_eq!(structural_kind("author").unwrap_err(), "unsupported graph structural edge kind");
}

#[test]
fn join_strings_puts_the_separator_between() {
    assert_eq!(join_strings(&vec![], ", "), "");
    assert_eq!(join_strings(&vec!["a".to_string()], ", "), "a");
    assert_eq!(join_strings(&vec!["a".to_string(), "b".to_string(), "c".to_string()], "/"), "a/b/c");
}

use zhiforge_knowledge::graph::{edge_degree, node_listed_before, order_overview_nodes, KnowledgeGraphNode};

fn node(id: &str, updated_at: i64) -> KnowledgeGraphNode {
    KnowledgeGraphNode {
        id: id.into(),
        title: id.into(),
        status: "learning".into(),
        quality_status: "unverified".into(),
        platform: "web".into(),
        author: None,
        mastery_score: 0,
        review_count: 0,
        topic_names: vec![],
        tag_names: vec![],
        relation_count: 0,
        source_count: 0,
        updated_at,
        is_center: false,
    }
}

fn edge(a: &str, b: &str) -> (String, String) {
    (a.to_string(), b.to_string())
}

#[test]
fn overview_puts_connected_knowledge_first() {
    let edges = vec![edge("k2", "k3"), edge("k3", "k4"), edge("k1", "k3"), edge("k2", "k4")];
    assert_eq!(edge_degree(&edges, "k3"), 3);
    assert_eq!(edge_degree(&edges, "k9"), 0);
    let nodes = vec![node("k1", 50), node("k4", 10), node("k2", 20), node("k3", 5), node("k0", 90), node("kz", 90)];
    let ordered = order_overview_nodes(nodes, &edges);
    let ids: Vec<&str> = ordered.iter().map(|n| n.id.as_str()).collect();
    assert_eq!(ids, vec!["k3", "k2", "k4", "k1", "k0", "kz"]);
    assert!(node_listed_before(&node("k0", 90), &node("kz", 90), &edges));
    assert!(!node_listed_before(&node("k1", 99), &node("k4", 1), &edges));
}

#[test]
fn local_graph_combines_explicit_and_structural_links_without_archived_nodes() {
    let rows = vec![row("k1", "t1", "Agents"), row("k4", "t1", "Agents"), row("k3", "t1", "Agents")];
    let pairs = structural_pairs(&rows, &shown(&["k1", "k2", "k3"]));
    assert_eq!(pairs.len(), 1);
    assert_eq!((pairs[0].source.as_str(), pairs[0].target.as_str()), ("k1", "k3"));
    let (id, _, reason) = structural_edge_text("topic", &pairs[0]);
    assert_eq!(id, "topic:k1:k3");
    assert_eq!(reason, "共享主题：Agents");
    assert!(pairs.iter().all(|p| p.source != "k4" && p.target != "k4"));
}

#[test]
fn structural_pairs_come_sorted_by_source_then_target() {
    let rows = vec![
        row("k3", "t1", "Topic"),
        row("k2", "t1", "Topic"),
        row("k1", "t1", "Topic"),
        row("k4", "s9", "Source"),
        row("k1", "s9", "Source"),
    ];
    let pairs = structural_pairs(&rows, &shown(&["k4", "k3", "k2", "k1"]));
    let order: Vec<(String, String)> =
        pairs.iter().map(|p| (p.source.clone(), p.target.clone())).collect();
    assert_eq!(
        order,
        vec![
            ("k1".to_string(), "k2".to_string()),
            ("k1".to_string(), "k3".to_string()),
            ("k1".to_string(), "k4".to_string()),
            ("k2".to_string(), "k3".to_string()),
        ]
    );
}
