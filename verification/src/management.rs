//! Topics, tags and relations that organize the knowledge library.
use vstd::prelude::*;
use crate::search::{fts_terms, like_escape, like_escaped, words_fts_expression};
use crate::text::{
    ascii_lower, ascii_lowercase, char_count, collapse_whitespace, collapse_ws, join, push_char,
    push_str, str_eq, trim, trim_str, words,
};

verus! {

/// A topic of the library.
#[derive(Clone, Debug)]
pub struct TopicRecord {
    pub id: String,
    pub name: String,
    pub description: String,
    pub created_by: String,
    pub locked: bool,
    pub knowledge_count: i64,
    pub created_at: i64,
    pub updated_at: i64,
    pub archived_at: Option<i64>,
}

/// A tag of the library.
#[derive(Clone, Debug)]
pub struct TagRecord {
    pub id: String,
    pub name: String,
    pub created_by: String,
    pub knowledge_count: i64,
    pub created_at: i64,
    pub updated_at: i64,
}

/// One row of the library list.
#[derive(Clone, Debug)]
pub struct KnowledgeLibraryItem {
    pub id: String,
    pub source_id: String,
    pub core_claim: String,
    pub selected_text: String,
    pub user_note: Option<String>,
    pub status: String,
    pub quality_status: String,
    pub platform: String,
    pub title: Option<String>,
    pub author: Option<String>,
    pub captured_at: i64,
    pub updated_at: i64,
    pub mastery_score: i64,
    pub review_count: i64,
    pub archived_at: Option<i64>,
    pub topics: Vec<TopicRecord>,
    pub tags: Vec<TagRecord>,
}

/// A piece of knowledge in the trash.
#[derive(Clone, Debug)]
pub struct TrashKnowledgeItem {
    pub knowledge_unit_id: String,
    pub core_claim: String,
    pub selected_text: String,
    pub platform: String,
    pub title: Option<String>,
    pub deleted_at: i64,
    pub expires_at: i64,
}

/// The relation types between pieces of knowledge.
pub const RELATION_TYPES: [&'static str; 7] = [
    "related_to",
    "supports",
    "contradicts",
    "example_of",
    "prerequisite_of",
    "derived_from",
    "extends",
];

/// The relation types, as a predicate.
pub open spec fn is_relation_type_spec(t: Seq<char>) -> bool {
    t == "related_to"@ || t == "supports"@ || t == "contradicts"@ || t == "example_of"@ || t
        == "prerequisite_of"@ || t == "derived_from"@ || t == "extends"@
}

/// A name with its whitespace collapsed, valid when not empty and at most
/// `max` characters.
pub open spec fn valid_name(value: Seq<char>, max: int) -> bool {
    collapse_ws(value).len() > 0 && collapse_ws(value).len() <= max
}

/// Whether a relation type is one of `RELATION_TYPES`.
pub fn is_relation_type(relation_type: &str) -> (r: bool)
    ensures
        r == is_relation_type_spec(relation_type@),
{
    str_eq(relation_type, "related_to") || str_eq(relation_type, "supports") || str_eq(
        relation_type,
        "contradicts",
    ) || str_eq(relation_type, "example_of") || str_eq(relation_type, "prerequisite_of")
        || str_eq(relation_type, "derived_from") || str_eq(relation_type, "extends")
}

/// An id, trimmed; an error naming the id when it is blank.
pub fn required_id(value: &str, label: &str) -> (r: Result<String, String>)
    ensures
        match r {
            Ok(t) => trim(value@).len() > 0 && t@ == trim(value@),
            Err(e) => trim(value@).len() == 0 && e@ == label@ + " id is empty"@,
        },
{
    let t = trim_str(value);
    if char_count(t.as_str()) == 0 {
        let mut message = label.to_owned();
        push_str(&mut message, " id is empty");
        Err(message)
    } else {
        Ok(t)
    }
}

/// A topic or tag name with whitespace collapsed; an error when it is empty
/// or longer than `max_chars` characters.
pub fn normalized_name(value: &str, label: &str, max_chars: usize) -> (r: Result<String, String>)
    ensures
        match r {
            Ok(t) => valid_name(value@, max_chars as int) && t@ == collapse_ws(value@),
            Err(e) => !valid_name(value@, max_chars as int) && e@ == label@ + (if collapse_ws(
                value@,
            ).len() == 0 {
                " name is empty"@
            } else {
                " name is too long"@
            }),
        },
{
    let name = collapse_whitespace(value);
    let n = char_count(name.as_str());
    if n == 0 {
        let mut message = label.to_owned();
        push_str(&mut message, " name is empty");
        return Err(message);
    }
    if n > max_chars {
        let mut message = label.to_owned();
        push_str(&mut message, " name is too long");
        return Err(message);
    }
    Ok(name)
}

/// An optional filter, trimmed; blank values become absent.
pub fn clean_optional(value: Option<String>) -> (r: Option<String>)
    ensures
        match value {
            Some(v) => if trim(v@).len() > 0 {
                r matches Some(t) && t@ == trim(v@)
            } else {
                r is None
            },
            None => r is None,
        },
{
    match value {
        Some(v) => {
            let t = trim_str(v.as_str());
            if char_count(t.as_str()) > 0 {
                Some(t)
            } else {
                None
            }
        },
        None => None,
    }
}

/// The text with `\`, `%` and `_` escaped for a `LIKE` pattern.
pub fn escape_like(value: &str) -> (r: String)
    ensures
        r@ == like_escaped(value@),
{
    like_escape(value)
}

/// Each word of the search text as an FTS5 prefix term, joined by `AND`.
pub fn fts_expression(value: &str) -> (r: String)
    ensures
        r@ == join(fts_terms(words(value@)), " AND "@),
{
    words_fts_expression(value, " AND ")
}


/// The checked filters of a library listing.
#[derive(Clone, Debug)]
pub struct LibraryFilters {
    pub status: Option<String>,
    pub quality_status: Option<String>,
    pub topic_id: Option<String>,
    pub tag_id: Option<String>,
    pub include_archived: bool,
    pub limit: i64,
    pub like: Option<String>,
    pub fts: Option<String>,
}

/// The trimmed value of an optional filter, absent when blank.
pub open spec fn cleaned_filter(value: Option<String>) -> Option<Seq<char>> {
    match value {
        Some(v) => if trim(v@).len() > 0 {
            Some(trim(v@))
        } else {
            None
        },
        None => None,
    }
}

/// The view of an optional string.
pub open spec fn opt_text(o: Option<String>) -> Option<Seq<char>> {
    match o {
        Some(s) => Some(s@),
        None => None,
    }
}

/// The filters of a library listing: each optional filter trimmed and
/// absent when blank; archived knowledge left out unless asked for; the
/// limit 100 when unset and else kept within 1..=200; the search text as a
/// `LIKE` pattern that matches it anywhere and as an FTS5 expression.
pub fn library_filters(
    query: Option<String>,
    status: Option<String>,
    quality_status: Option<String>,
    topic_id: Option<String>,
    tag_id: Option<String>,
    include_archived: Option<bool>,
    limit: Option<u32>,
) -> (r: LibraryFilters)
    ensures
        opt_text(r.status) == cleaned_filter(status),
        opt_text(r.quality_status) == cleaned_filter(quality_status),
        opt_text(r.topic_id) == cleaned_filter(topic_id),
        opt_text(r.tag_id) == cleaned_filter(tag_id),
        r.include_archived == (include_archived == Some(true)),
        r.limit == (match limit {
            None => 100,
            Some(l) => if l < 1 {
                1
            } else if l > 200 {
                200
            } else {
                l as int
            },
        }),
        opt_text(r.like) == (match cleaned_filter(query) {
            Some(q) => Some(seq!['%'] + like_escaped(q) + seq!['%']),
            None => None,
        }),
        opt_text(r.fts) == (match cleaned_filter(query) {
            Some(q) => Some(join(fts_terms(words(q)), " AND "@)),
            None => None,
        }),
{
    let query = clean_optional(query);
    let include_archived = match include_archived {
        Some(b) => b,
        None => false,
    };
    let limit: i64 = match limit {
        None => 100,
        Some(l) => if l < 1 {
            1
        } else if l > 200 {
            200
        } else {
            l as i64
        },
    };
    let (like, fts) = match &query {
        Some(q) => {
            let mut pattern = String::new();
            push_char(&mut pattern, '%');
            let escaped = escape_like(q.as_str());
            push_str(&mut pattern, escaped.as_str());
            push_char(&mut pattern, '%');
            (Some(pattern), Some(fts_expression(q.as_str())))
        },
        None => (None, None),
    };
    LibraryFilters {
        status: clean_optional(status),
        quality_status: clean_optional(quality_status),
        topic_id: clean_optional(topic_id),
        tag_id: clean_optional(tag_id),
        include_archived,
        limit,
        like,
        fts,
    }
}


/// A note, trimmed: an empty one removes the note, and more than 100,000
/// characters is an error.
pub fn note_value(note: &str) -> (r: Result<Option<String>, String>)
    ensures
        match r {
            Ok(None) => trim(note@).len() == 0,
            Ok(Some(t)) => t@ == trim(note@) && 0 < t@.len() <= 100_000,
            Err(e) => e@ == "note is too large"@ && trim(note@).len() > 100_000,
        },
{
    let t = trim_str(note);
    let n = char_count(t.as_str());
    if n > 100_000 {
        Err("note is too large".to_string())
    } else if n == 0 {
        Ok(None)
    } else {
        Ok(Some(t))
    }
}

/// A relation a user asks for: both ids present (trimmed) and different,
/// and a relation type (trimmed, ASCII lowercase) that is supported.
pub fn relation_request(source_id: &str, target_id: &str, relation_type: &str) -> (r: Result<
    (String, String, String),
    String,
>)
    ensures
        if trim(source_id@).len() == 0 {
            r matches Err(e) && e@ == "source knowledge id is empty"@
        } else if trim(target_id@).len() == 0 {
            r matches Err(e) && e@ == "target knowledge id is empty"@
        } else if trim(source_id@) == trim(target_id@) {
            r matches Err(e) && e@ == "a knowledge unit cannot relate to itself"@
        } else if !is_relation_type_spec(ascii_lower(trim(relation_type@))) {
            r matches Err(e) && e@ == "unsupported relation type"@
        } else {
            r matches Ok((s, t, k)) && s@ == trim(source_id@) && t@ == trim(target_id@) && k@
                == ascii_lower(trim(relation_type@))
        },
{
    let source = match required_id(source_id, "source knowledge") {
        Ok(v) => v,
        Err(e) => {
            proof {
                reveal_strlit("source knowledge");
                reveal_strlit(" id is empty");
                reveal_strlit("source knowledge id is empty");
                assert(e@ =~= "source knowledge id is empty"@);
            }
            return Err(e);
        },
    };
    let target = match required_id(target_id, "target knowledge") {
        Ok(v) => v,
        Err(e) => {
            proof {
                reveal_strlit("target knowledge");
                reveal_strlit(" id is empty");
                reveal_strlit("target knowledge id is empty");
                assert(e@ =~= "target knowledge id is empty"@);
            }
            return Err(e);
        },
    };
    if str_eq(source.as_str(), target.as_str()) {
        return Err("a knowledge unit cannot relate to itself".to_string());
    }
    let trimmed = trim_str(relation_type);
    let kind = ascii_lowercase(trimmed.as_str());
    if !is_relation_type(kind.as_str()) {
        return Err("unsupported relation type".to_string());
    }
    Ok((source, target, kind))
}

/// A topic can be edited unless it is locked or archived.
pub fn check_topic_editable(locked: bool, archived_at: Option<i64>) -> (r: Result<(), String>)
    ensures
        if locked {
            r matches Err(e) && e@ == "locked topic cannot be edited"@
        } else if archived_at is Some {
            r matches Err(e) && e@ == "archived topic must be restored before editing"@
        } else {
            r is Ok
        },
{
    if locked {
        Err("locked topic cannot be edited".to_string())
    } else if archived_at.is_some() {
        Err("archived topic must be restored before editing".to_string())
    } else {
        Ok(())
    }
}

/// A topic can be archived or restored unless it is locked.
pub fn check_topic_archivable(locked: bool) -> (r: Result<(), String>)
    ensures
        if locked {
            r matches Err(e) && e@ == "locked topic cannot be archived"@
        } else {
            r is Ok
        },
{
    if locked {
        Err("locked topic cannot be archived".to_string())
    } else {
        Ok(())
    }
}

/// Only a tag that no knowledge carries can be deleted.
pub fn check_tag_deletable(assignments: i64) -> (r: Result<(), String>)
    ensures
        if assignments > 0 {
            r matches Err(e) && e@ == "tag is still assigned to knowledge and cannot be deleted"@
        } else {
            r is Ok
        },
{
    if assignments > 0 {
        Err("tag is still assigned to knowledge and cannot be deleted".to_string())
    } else {
        Ok(())
    }
}

} // verus!
