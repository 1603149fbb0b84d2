# zhiforge_knowledge

The knowledge features of ZhiForge, a personal knowledge workbench: captured
text becomes grounded knowledge units with questions, goes through an inbox,
is reviewed in sessions, organized into topics, tags and relations, curated
for duplicates and conflicts, merged, searched, and drawn as a graph.

The library in `src/` holds the rules of these features and is verified with
Verus: the checks of every input and of every model output, the grounding of
evidence quotes in their source, the plans of inbox acceptance, merges and
review sessions, search expressions, candidate pairs, graph links and
orderings. Each public function states in its contract what it returns, and
proof functions state the laws that hold across calls.

- `src/text.rs`, `src/search.rs`: strings, trimming, whitespace, search terms.
- `src/capture.rs`, `src/source.rs`: captured sources and their hashes.
- `src/grounding.rs`, `src/internalization.rs`: evidence grounding, extracted
  knowledge and generated questions.
- `src/inbox.rs`: drafts, their correction and their acceptance.
- `src/review.rs`: mastery rules, review plans and queue revisions.
- `src/assessment.rs`: judged answers.
- `src/curation.rs`, `src/librarian.rs`, `src/merge.rs`, `src/research.rs`:
  curation candidates, organizing proposals, merges and research plans.
- `src/semantic.rs`, `src/management.rs`: semantic search (its inputs,
  candidates, and the step function that decides each next action of a
  search) and the library's topics, tags and relations.
- `src/graph.rs`, `src/task_center.rs`, `src/health.rs`, `src/claims.rs`:
  the graph, the task list and record types.

`app/` is ordinary Rust around the library: SQLite storage, JSON forms of
records and model outputs, the floating-point review scheduler, the
graph's edge weights, and the loop that runs a semantic search's actions. `tests/` exercises the library on concrete values.
