//! The quality state of a piece of knowledge and the sources linked to it.
use vstd::prelude::*;

verus! {

/// The quality state of a piece of knowledge: who set it, when and why.
#[derive(Clone, Debug)]
pub struct KnowledgeQualityStateRecord {
    pub knowledge_unit_id: String,
    pub status: String,
    pub reason: Option<String>,
    pub updated_by: String,
    pub updated_at: i64,
}

/// A source linked to a piece of knowledge, with the role it plays.
#[derive(Clone, Debug)]
pub struct KnowledgeSourceLinkRecord {
    pub source_id: String,
    pub role: String,
    pub platform: String,
    pub url: Option<String>,
    pub title: Option<String>,
    pub author: Option<String>,
    pub captured_at: i64,
}

} // verus!
