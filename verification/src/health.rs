//! The health report of the library: buckets of knowledge that need care.
use vstd::prelude::*;

verus! {

/// A piece of knowledge shown as an example of a health bucket, with the
/// other piece of a pair where the bucket is about pairs.
#[derive(Clone, Debug)]
pub struct KnowledgeHealthSample {
    pub knowledge_unit_id: String,
    pub title: String,
    pub status: String,
    pub other_knowledge_unit_id: Option<String>,
    pub other_title: Option<String>,
}

/// How many pieces of knowledge a health bucket holds, with a few samples.
#[derive(Clone, Debug)]
pub struct KnowledgeHealthBucket {
    pub count: i64,
    pub samples: Vec<KnowledgeHealthSample>,
}

/// The health of the whole library.
#[derive(Clone, Debug)]
pub struct KnowledgeHealthReport {
    pub total_knowledge: i64,
    pub generated_at: i64,
    pub uncategorized: KnowledgeHealthBucket,
    pub no_questions: KnowledgeHealthBucket,
    pub never_reviewed: KnowledgeHealthBucket,
    pub possible_duplicates: KnowledgeHealthBucket,
    pub possible_conflicts: KnowledgeHealthBucket,
    pub source_link_issues: KnowledgeHealthBucket,
    pub stale_knowledge: KnowledgeHealthBucket,
}

} // verus!
