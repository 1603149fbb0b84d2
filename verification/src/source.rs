//! The source library: captured sources and the knowledge taken from them.
use vstd::prelude::*;
use crate::capture::SourceRecord;
use crate::internalization::SourceKnowledgeUnitSummary;
use crate::search::{like_escape, like_escaped};
use crate::text::{char_count, push_char, push_str, str_eq, trim, trim_str};

verus! {

/// The platforms a source may come from.
pub const SOURCE_PLATFORMS: [&'static str; 5] = ["zhihu", "web", "pdf", "desktop", "unknown"];

/// A source in the library list, with how much knowledge it backs.
#[derive(Clone, Debug)]
pub struct SourceLibraryItem {
    pub id: String,
    pub platform: String,
    pub url: Option<String>,
    pub title: Option<String>,
    pub author: Option<String>,
    pub selected_text: String,
    pub captured_at: i64,
    pub knowledge_count: i64,
}

/// A source with the knowledge taken from it.
#[derive(Clone, Debug)]
pub struct SourceDetailRecord {
    pub source: SourceRecord,
    pub knowledge_units: Vec<SourceKnowledgeUnitSummary>,
}

/// The checked filters of a source library listing.
#[derive(Clone, Debug)]
pub struct SourceLibraryFilters {
    pub like: Option<String>,
    pub platform: Option<String>,
    pub limit: i64,
}

/// The platforms, as a predicate.
pub open spec fn is_source_platform(p: Seq<char>) -> bool {
    p == "zhihu"@ || p == "web"@ || p == "pdf"@ || p == "desktop"@ || p == "unknown"@
}

/// The trimmed value of an optional filter, absent when blank.
pub open spec fn cleaned(value: Option<String>) -> Option<Seq<char>> {
    match value {
        Some(v) => if trim(v@).len() > 0 {
            Some(trim(v@))
        } else {
            None
        },
        None => None,
    }
}

/// An optional filter, trimmed; blank values become absent.
pub fn clean_optional(value: Option<String>) -> (r: Option<String>)
    ensures
        match cleaned(value) {
            Some(t) => r matches Some(s) && s@ == t,
            None => r is None,
        },
{
    match value {
        Some(v) => {
            let t = trim_str(v.as_str());
            if char_count(t.as_str()) > 0 {
                Some(t)
            } else {
                None
            }
        },
        None => None,
    }
}

/// The text with `\`, `%` and `_` escaped for a `LIKE` pattern.
pub fn escape_like(value: &str) -> (r: String)
    ensures
        r@ == like_escaped(value@),
{
    like_escape(value)
}

/// The filters of a source library listing: the search text as a `LIKE`
/// pattern that matches it anywhere, the platform, which must be a known
/// one, and the limit, 100 when unset and else kept within 1..=200.
pub fn source_library_filters(
    query: Option<String>,
    platform: Option<String>,
    limit: Option<u32>,
) -> (r: Result<SourceLibraryFilters, String>)
    ensures
        match cleaned(platform) {
            Some(p) if !is_source_platform(p) => r matches Err(e) && e@
                == "unsupported source platform"@,
            _ => r matches Ok(f) && (match cleaned(query) {
                Some(q) => f.like matches Some(l) && l@ == seq!['%'] + like_escaped(q) + seq![
                    '%',
                ],
                None => f.like is None,
            }) && (match cleaned(platform) {
                Some(p) => f.platform matches Some(s) && s@ == p,
                None => f.platform is None,
            }) && f.limit == (match limit {
                None => 100,
                Some(l) => if l < 1 {
                    1
                } else if l > 200 {
                    200
                } else {
                    l as int
                },
            }),
        },
{
    let query = clean_optional(query);
    let platform = clean_optional(platform);
    if let Some(p) = &platform {
        let s = p.as_str();
        if !(str_eq(s, "zhihu") || str_eq(s, "web") || str_eq(s, "pdf") || str_eq(s, "desktop")
            || str_eq(s, "unknown")) {
            return Err("unsupported source platform".to_string());
        }
    }
    let like = match &query {
        Some(q) => {
            let mut pattern = String::new();
            push_char(&mut pattern, '%');
            let escaped = escape_like(q.as_str());
            push_str(&mut pattern, escaped.as_str());
            push_char(&mut pattern, '%');
            Some(pattern)
        },
        None => None,
    };
    let limit = match limit {
        None => 100,
        Some(l) => if l < 1 {
            1
        } else if l > 200 {
            200
        } else {
            l as i64
        },
    };
    Ok(SourceLibraryFilters { like, platform, limit })
}

/// A source id, trimmed; an error when it is blank.
pub fn required_source_id(source_id: &str) -> (r: Result<String, String>)
    ensures
        match r {
            Ok(t) => trim(source_id@).len() > 0 && t@ == trim(source_id@),
            Err(e) => trim(source_id@).len() == 0 && e@ == "source id is empty"@,
        },
{
    let t = trim_str(source_id);
    if char_count(t.as_str()) == 0 {
        Err("source id is empty".to_string())
    } else {
        Ok(t)
    }
}

} // verus!
