//! Rules that the librarian's organization proposals are held to, and how a
//! stored proposal is decided.
use vstd::prelude::*;
use crate::management::{is_relation_type, is_relation_type_spec};
use crate::search::{str_le, text_le};
use crate::text::{
    ascii_lower, ascii_lowercase, char_count, collapse_whitespace, collapse_ws, contains_string,
    push_char, push_str, str_eq, string_views, take_chars, to_lowercase, trim, trim_str,
    trim_take_str, unicode_lowercase,
};

verus! {

/// The key of a directed relation: source, target and type separated by the
/// unit separator `U+001F`.
pub open spec fn relation_key_of(source: Seq<char>, target: Seq<char>, relation_type: Seq<char>) -> Seq<
    char,
> {
    source + seq!['\u{1f}'] + target + seq!['\u{1f}'] + relation_type
}

/// The error for a proposal that names knowledge outside its catalog.
pub open spec fn unknown_id_message(id: Seq<char>) -> Seq<char> {
    "proposal references unknown knowledge id '"@ + id + "'"@
}

/// The display label of a relation type; unknown types read as related.
pub open spec fn relation_label_of(t: Seq<char>) -> Seq<char> {
    if t == "supports"@ {
        "支持"@
    } else if t == "contradicts"@ {
        "冲突"@
    } else if t == "example_of"@ {
        "示例"@
    } else if t == "prerequisite_of"@ {
        "前置"@
    } else if t == "derived_from"@ {
        "来源于"@
    } else if t == "extends"@ {
        "扩展"@
    } else {
        "相关"@
    }
}

/// The key of a directed relation (see `relation_key_of`).
pub fn relation_key(source_id: &str, target_id: &str, relation_type: &str) -> (r: String)
    ensures
        r@ == relation_key_of(source_id@, target_id@, relation_type@),
{
    let mut key = source_id.to_owned();
    push_char(&mut key, '\u{1f}');
    push_str(&mut key, target_id);
    push_char(&mut key, '\u{1f}');
    push_str(&mut key, relation_type);
    key
}

/// Relations that read the same in both directions.
pub fn is_symmetric_relation(relation_type: &str) -> (r: bool)
    ensures
        r == (relation_type@ == "related_to"@ || relation_type@ == "contradicts"@),
{
    str_eq(relation_type, "related_to") || str_eq(relation_type, "contradicts")
}

/// The display label of a relation type (see `relation_label_of`).
pub fn relation_label(relation_type: &str) -> (r: &'static str)
    ensures
        r@ == relation_label_of(relation_type@),
{
    if str_eq(relation_type, "supports") {
        "支持"
    } else if str_eq(relation_type, "contradicts") {
        "冲突"
    } else if str_eq(relation_type, "example_of") {
        "示例"
    } else if str_eq(relation_type, "prerequisite_of") {
        "前置"
    } else if str_eq(relation_type, "derived_from") {
        "来源于"
    } else if str_eq(relation_type, "extends") {
        "扩展"
    } else {
        "相关"
    }
}

/// A proposal may name only knowledge of the catalog it was given.
pub fn require_known_id(ids: &Vec<String>, value: &String) -> (r: Result<(), String>)
    ensures
        match r {
            Ok(_) => string_views(ids@).contains(value@),
            Err(e) => !string_views(ids@).contains(value@) && e@ == unknown_id_message(value@),
        },
{
    if !contains_string(ids, value) {
        let mut message = "proposal references unknown knowledge id '".to_string();
        push_str(&mut message, value.as_str());
        push_char(&mut message, '\'');
        proof {
            reveal_strlit("'");
            assert(message@ =~= unknown_id_message(value@));
        }
        return Err(message);
    }
    Ok(())
}

/// A proposed name with whitespace collapsed; an error when it is empty or
/// longer than `max_chars` characters.
pub fn normalize_name(value: &str, max_chars: usize) -> (r: Result<String, String>)
    ensures
        match r {
            Ok(t) => collapse_ws(value@).len() > 0 && collapse_ws(value@).len() <= max_chars && t@
                == collapse_ws(value@),
            Err(e) => if collapse_ws(value@).len() == 0 {
                e@ == "proposal name is empty"@
            } else {
                collapse_ws(value@).len() > max_chars && e@ == "proposal name is too long"@
            },
        },
{
    let name = collapse_whitespace(value);
    let n = char_count(name.as_str());
    if n == 0 {
        return Err("proposal name is empty".to_string());
    }
    if n > max_chars {
        return Err("proposal name is too long".to_string());
    }
    Ok(name)
}

/// A proposal's rationale, trimmed; an error when it is empty or longer than
/// 500 characters.
pub fn normalize_rationale(value: &str) -> (r: Result<String, String>)
    ensures
        match r {
            Ok(t) => 0 < trim(value@).len() <= 500 && t@ == trim(value@),
            Err(e) => if trim(value@).len() == 0 {
                e@ == "proposal rationale is empty"@
            } else {
                trim(value@).len() > 500 && e@ == "proposal rationale is too long"@
            },
        },
{
    let t = trim_str(value);
    let n = char_count(t.as_str());
    if n == 0 {
        return Err("proposal rationale is empty".to_string());
    }
    if n > 500 {
        return Err("proposal rationale is too long".to_string());
    }
    Ok(t)
}

/// An id, trimmed; an error when it is blank or longer than 160 characters.
pub fn required_id(value: &str, label: &str) -> (r: Result<String, String>)
    ensures
        match r {
            Ok(t) => 0 < trim(value@).len() <= 160 && t@ == trim(value@),
            Err(e) => (trim(value@).len() == 0 || trim(value@).len() > 160) && e@ == "invalid "@
                + label@ + " id"@,
        },
{
    let t = trim_str(value);
    let n = char_count(t.as_str());
    if n == 0 || n > 160 {
        let mut message = "invalid ".to_string();
        push_str(&mut message, label);
        push_str(&mut message, " id");
        return Err(message);
    }
    Ok(t)
}

/// The trimmed text, cut to `max_chars` characters.
pub fn bounded_text(value: &str, max_chars: usize) -> (r: String)
    ensures
        r@ == take_chars(trim(value@), max_chars as int),
{
    trim_take_str(value, max_chars)
}


// ---------------------------------------------------------------------------
// Validation of the librarian's proposals
// ---------------------------------------------------------------------------

/// The most proposals one librarian run may return.
pub const MAX_PROPOSALS: usize = 24;

/// Where a proposal's confidence stands: outside `0..=1` (or not a number),
/// below the acceptance threshold, or high enough.
#[derive(Clone, Copy, Debug)]
pub enum ConfidenceLevel {
    OutOfRange,
    Low,
    Sufficient,
}

/// An organization change the librarian proposes, apart from its confidence.
#[derive(Clone, Debug)]
pub enum ProposalAction {
    TopicAssign { knowledge_id: String, topic_name: String, rationale: String },
    TagAdd { knowledge_id: String, tag_name: String, rationale: String },
    RelationCreate {
        source_id: String,
        target_id: String,
        relation_type: String,
        rationale: String,
    },
}

/// A proposal as the librarian returns it.
#[derive(Clone, Debug)]
pub struct ProposalInput {
    pub action: ProposalAction,
    pub confidence: ConfidenceLevel,
}

/// A proposal that passed validation: where it stood in the input, and its
/// normalized action.
#[derive(Clone, Debug)]
pub struct ValidatedProposal {
    pub index: usize,
    pub action: ProposalAction,
}

/// A piece of knowledge of the catalog the librarian organizes.
#[derive(Clone, Debug)]
pub struct CatalogKnowledge {
    pub id: String,
    pub claim: String,
    pub concepts: Vec<String>,
    pub topics: Vec<String>,
    pub tags: Vec<String>,
}

/// A relation the catalog already has.
#[derive(Clone, Debug)]
pub struct CatalogRelation {
    pub source_id: String,
    pub target_id: String,
    pub relation_type: String,
}

/// What the librarian is shown.
#[derive(Clone, Debug)]
pub struct LibrarianCatalog {
    pub knowledge: Vec<CatalogKnowledge>,
    pub existing_topics: Vec<String>,
    pub existing_tags: Vec<String>,
    pub existing_relations: Vec<CatalogRelation>,
}

pub enum ActionView {
    Topic { knowledge_id: Seq<char>, name: Seq<char>, rationale: Seq<char> },
    Tag { knowledge_id: Seq<char>, name: Seq<char>, rationale: Seq<char> },
    Relation {
        source: Seq<char>,
        target: Seq<char>,
        relation_type: Seq<char>,
        rationale: Seq<char>,
    },
}

impl View for ProposalAction {
    type V = ActionView;

    open spec fn view(&self) -> ActionView {
        match self {
            ProposalAction::TopicAssign { knowledge_id, topic_name, rationale } => ActionView::Topic {
                knowledge_id: knowledge_id@,
                name: topic_name@,
                rationale: rationale@,
            },
            ProposalAction::TagAdd { knowledge_id, tag_name, rationale } => ActionView::Tag {
                knowledge_id: knowledge_id@,
                name: tag_name@,
                rationale: rationale@,
            },
            ProposalAction::RelationCreate { source_id, target_id, relation_type, rationale } =>
                ActionView::Relation {
                source: source_id@,
                target: target_id@,
                relation_type: relation_type@,
                rationale: rationale@,
            },
        }
    }
}

/// The ids of the catalog's knowledge.
pub open spec fn catalog_ids(ks: Seq<CatalogKnowledge>) -> Seq<Seq<char>> {
    ks.map_values(|k: CatalogKnowledge| k.id@)
}

/// The keys of the catalog's relations.
pub open spec fn catalog_relation_keys(rs: Seq<CatalogRelation>) -> Seq<Seq<char>> {
    rs.map_values(
        |r: CatalogRelation| relation_key_of(r.source_id@, r.target_id@, r.relation_type@),
    )
}

/// The first piece of knowledge with the id.
pub open spec fn item_with_id(ks: Seq<CatalogKnowledge>, id: Seq<char>) -> Option<CatalogKnowledge>
    decreases ks.len(),
{
    if ks.len() == 0 {
        None
    } else if ks[0].id@ == id {
        Some(ks[0])
    } else {
        item_with_id(ks.drop_first(), id)
    }
}

/// The topics (or, with `topics` false, the tags) of the first piece of
/// knowledge with the id.
pub open spec fn names_of(ks: Seq<CatalogKnowledge>, id: Seq<char>, topics: bool) -> Seq<Seq<char>> {
    match item_with_id(ks, id) {
        Some(k) => if topics {
            string_views(k.topics@)
        } else {
            string_views(k.tags@)
        },
        None => Seq::empty(),
    }
}

/// One of the names equals `name` after Unicode lowercasing.
pub open spec fn has_name_ignoring_case(names: Seq<Seq<char>>, name: Seq<char>) -> bool {
    exists|k: int| 0 <= k < names.len() && unicode_lowercase(#[trigger] names[k]) == unicode_lowercase(name)
}

/// A rationale trimmed, 1 to 500 characters.
pub open spec fn checked_rationale(r: Seq<char>) -> Result<Seq<char>, Seq<char>> {
    if trim(r).len() == 0 {
        Err("proposal rationale is empty"@)
    } else if trim(r).len() > 500 {
        Err("proposal rationale is too long"@)
    } else {
        Ok(trim(r))
    }
}

/// A name with whitespace collapsed, 1 to `max` characters.
pub open spec fn checked_name(n: Seq<char>, max: int) -> Result<Seq<char>, Seq<char>> {
    if collapse_ws(n).len() == 0 {
        Err("proposal name is empty"@)
    } else if collapse_ws(n).len() > max {
        Err("proposal name is too long"@)
    } else {
        Ok(collapse_ws(n))
    }
}

/// The error for a relation type outside the known ones.
pub open spec fn unsupported_relation_message(t: Seq<char>) -> Seq<char> {
    "unsupported relation type '"@ + t + "'"@
}

/// A topic or tag proposal checked: the knowledge must be in the catalog,
/// the confidence in range; low confidence, or a name the knowledge already
/// has up to case, drops it; its name and rationale must be valid.
pub open spec fn checked_naming(
    knowledge_id: Seq<char>,
    name: Seq<char>,
    rationale: Seq<char>,
    c: ConfidenceLevel,
    ks: Seq<CatalogKnowledge>,
    topics: bool,
) -> Result<Option<(Seq<char>, Seq<char>)>, Seq<char>> {
    if !catalog_ids(ks).contains(knowledge_id) {
        Err(unknown_id_message(knowledge_id))
    } else if c is OutOfRange {
        Err("proposal confidence must be between 0 and 1"@)
    } else if c is Low {
        Ok(None)
    } else {
        match checked_name(name, if topics { 120 } else { 80 }) {
            Err(e) => Err(e),
            Ok(n) => if has_name_ignoring_case(names_of(ks, knowledge_id, topics), n) {
                Ok(None)
            } else {
                match checked_rationale(rationale) {
                    Err(e) => Err(e),
                    Ok(r) => Ok(Some((n, r))),
                }
            },
        }
    }
}

/// One proposal checked against the catalog: an error that rejects the whole
/// output, `None` for a proposal that is dropped, or the normalized action.
pub open spec fn checked_action(
    a: ActionView,
    c: ConfidenceLevel,
    ks: Seq<CatalogKnowledge>,
    keys: Seq<Seq<char>>,
) -> Result<Option<ActionView>, Seq<char>> {
    match a {
        ActionView::Topic { knowledge_id, name, rationale } => match checked_naming(
            knowledge_id,
            name,
            rationale,
            c,
            ks,
            true,
        ) {
            Err(e) => Err(e),
            Ok(None) => Ok(None),
            Ok(Some((n, r))) => Ok(Some(ActionView::Topic { knowledge_id, name: n, rationale: r })),
        },
        ActionView::Tag { knowledge_id, name, rationale } => match checked_naming(
            knowledge_id,
            name,
            rationale,
            c,
            ks,
            false,
        ) {
            Err(e) => Err(e),
            Ok(None) => Ok(None),
            Ok(Some((n, r))) => Ok(Some(ActionView::Tag { knowledge_id, name: n, rationale: r })),
        },
        ActionView::Relation { source, target, relation_type, rationale } => {
            let rt = ascii_lower(trim(relation_type));
            if !catalog_ids(ks).contains(source) {
                Err(unknown_id_message(source))
            } else if !catalog_ids(ks).contains(target) {
                Err(unknown_id_message(target))
            } else if source == target {
                Err("relation endpoints must differ"@)
            } else if c is OutOfRange {
                Err("proposal confidence must be between 0 and 1"@)
            } else if c is Low {
                Ok(None)
            } else if !is_relation_type_spec(rt) {
                Err(unsupported_relation_message(rt))
            } else if keys.contains(relation_key_of(source, target, rt)) || ((rt == "related_to"@
                || rt == "contradicts"@) && keys.contains(relation_key_of(target, source, rt))) {
                Ok(None)
            } else {
                match checked_rationale(rationale) {
                    Err(e) => Err(e),
                    Ok(r) => Ok(
                        Some(
                            ActionView::Relation { source, target, relation_type: rt, rationale: r },
                        ),
                    ),
                }
            }
        },
    }
}

/// What makes two proposals the same change: the kind, the knowledge and
/// the lowercased name; for a relation its ends and type, the ends of a
/// symmetric relation in text order.
/// What makes two namings the same: the kind, the knowledge and the name's
/// key (its lowercase form), separated by U+001F.
pub open spec fn naming_identity_of(kind: Seq<char>, knowledge_id: Seq<char>, name_key: Seq<char>) -> Seq<
    char,
> {
    kind + seq!['\u{1f}'] + knowledge_id + seq!['\u{1f}'] + name_key
}

pub open spec fn proposal_identity_of(a: ActionView) -> Seq<char> {
    match a {
        ActionView::Topic { knowledge_id, name, .. } => naming_identity_of(
            "topic"@,
            knowledge_id,
            unicode_lowercase(name),
        ),
        ActionView::Tag { knowledge_id, name, .. } => naming_identity_of(
            "tag"@,
            knowledge_id,
            unicode_lowercase(name),
        ),
        ActionView::Relation { source, target, relation_type, .. } => {
            if (relation_type == "related_to"@ || relation_type == "contradicts"@) && !text_le(
                source,
                target,
            ) {
                "relation"@ + seq!['\u{1f}'] + relation_key_of(target, source, relation_type)
            } else {
                "relation"@ + seq!['\u{1f}'] + relation_key_of(source, target, relation_type)
            }
        },
    }
}

/// The proposals checked in turn (see `checked_action`); of two with the
/// same identity the first is kept. Each kept one carries its position.
pub open spec fn validated_actions(
    ps: Seq<ProposalInput>,
    ks: Seq<CatalogKnowledge>,
    keys: Seq<Seq<char>>,
) -> Result<Seq<(int, ActionView)>, Seq<char>>
    decreases ps.len(),
{
    if ps.len() == 0 {
        Ok(Seq::empty())
    } else {
        match validated_actions(ps.drop_last(), ks, keys) {
            Err(e) => Err(e),
            Ok(acc) => match checked_action(ps.last().action@, ps.last().confidence, ks, keys) {
                Err(e) => Err(e),
                Ok(None) => Ok(acc),
                Ok(Some(a)) => if exists|k: int|
                    0 <= k < acc.len() && proposal_identity_of(#[trigger] acc[k].1)
                        == proposal_identity_of(a) {
                    Ok(acc)
                } else {
                    Ok(acc.push((ps.len() - 1, a)))
                },
            },
        }
    }
}

/// The librarian's proposals validated against the catalog: at most 24,
/// each checked in turn (see `validated_actions`).
pub open spec fn validated_proposals(ps: Seq<ProposalInput>, catalog: LibrarianCatalog) -> Result<
    Seq<(int, ActionView)>,
    Seq<char>,
> {
    if ps.len() > 24 {
        Err("librarian returned more than 24 proposals"@)
    } else {
        validated_actions(
            ps,
            catalog.knowledge@,
            catalog_relation_keys(catalog.existing_relations@),
        )
    }
}

/// The views of validated proposals.
pub open spec fn validated_views(v: Seq<ValidatedProposal>) -> Seq<(int, ActionView)> {
    v.map_values(|p: ValidatedProposal| (p.index as int, p.action@))
}

/// A rejected proposal rejects every longer list that starts with it.
pub proof fn lemma_validated_actions_none_prefix(
    ps: Seq<ProposalInput>,
    ks: Seq<CatalogKnowledge>,
    keys: Seq<Seq<char>>,
    i: int,
)
    requires
        0 <= i <= ps.len(),
        validated_actions(ps.take(i), ks, keys) is Err,
    ensures
        validated_actions(ps, ks, keys) == validated_actions(ps.take(i), ks, keys),
    decreases ps.len() - i,
{
    if i < ps.len() {
        assert(ps.take(i + 1).drop_last() =~= ps.take(i));
        lemma_validated_actions_none_prefix(ps, ks, keys, i + 1);
    } else {
        assert(ps.take(i) =~= ps);
    }
}

/// The ids of the catalog's knowledge, in order.
fn knowledge_ids(ks: &Vec<CatalogKnowledge>) -> (r: Vec<String>)
    ensures
        string_views(r@) == catalog_ids(ks@),
{
    let mut r: Vec<String> = Vec::new();
    let n = ks.len();
    let mut i: usize = 0;
    while i < n
        invariant
            n == ks@.len(),
            i <= n,
            r@.len() == i,
            string_views(r@) == catalog_ids(ks@).take(i as int),
        decreases n - i,
    {
        r.push(ks[i].id.clone());
        assert(string_views(r@) =~= catalog_ids(ks@).take(i + 1));
        i = i + 1;
    }
    assert(catalog_ids(ks@).take(n as int) =~= catalog_ids(ks@));
    r
}

/// The keys of the catalog's relations, in order.
fn relation_keys(rs: &Vec<CatalogRelation>) -> (r: Vec<String>)
    ensures
        string_views(r@) == catalog_relation_keys(rs@),
{
    let mut r: Vec<String> = Vec::new();
    let n = rs.len();
    let mut i: usize = 0;
    while i < n
        invariant
            n == rs@.len(),
            i <= n,
            r@.len() == i,
            string_views(r@) == catalog_relation_keys(rs@).take(i as int),
        decreases n - i,
    {
        let rel = &rs[i];
        r.push(relation_key(rel.source_id.as_str(), rel.target_id.as_str(), rel.relation_type.as_str()));
        assert(string_views(r@) =~= catalog_relation_keys(rs@).take(i + 1));
        i = i + 1;
    }
    assert(catalog_relation_keys(rs@).take(n as int) =~= catalog_relation_keys(rs@));
    r
}

/// The position of the first piece of knowledge with the id.
fn first_item_index(ks: &Vec<CatalogKnowledge>, id: &str) -> (r: Option<usize>)
    ensures
        match r {
            Some(i) => i < ks@.len() && item_with_id(ks@, id@) == Some(ks@[i as int]),
            None => item_with_id(ks@, id@) is None,
        },
{
    let n = ks.len();
    let mut i: usize = 0;
    assert(ks@.skip(0) =~= ks@);
    while i < n
        invariant
            n == ks@.len(),
            i <= n,
            item_with_id(ks@, id@) == item_with_id(ks@.skip(i as int), id@),
        decreases n - i,
    {
        assert(ks@.skip(i as int)[0] == ks@[i as int]);
        assert(ks@.skip(i as int).drop_first() =~= ks@.skip(i + 1));
        if str_eq(ks[i].id.as_str(), id) {
            return Some(i);
        }
        i = i + 1;
    }
    assert(ks@.skip(n as int).len() == 0);
    None
}

/// The lowercase forms of the names, in order.
fn lowercased_names(names: &Vec<String>) -> (r: Vec<String>)
    ensures
        string_views(r@) == string_views(names@).map_values(|n: Seq<char>| unicode_lowercase(n)),
{
    let n = names.len();
    let mut r: Vec<String> = Vec::new();
    let mut i: usize = 0;
    while i < n
        invariant
            n == names@.len(),
            i <= n,
            string_views(r@) == string_views(names@).take(i as int).map_values(
                |x: Seq<char>| unicode_lowercase(x),
            ),
        decreases n - i,
    {
        let lower = to_lowercase(names[i].as_str());
        let ghost prev = r@;
        r.push(lower);
        assert(string_views(r@) =~= string_views(prev).push(r@[i as int]@));
        assert(string_views(names@).take(i + 1) =~= string_views(names@).take(i as int).push(
            names@[i as int]@,
        ));
        assert(string_views(r@) =~= string_views(names@).take(i + 1).map_values(
            |x: Seq<char>| unicode_lowercase(x),
        ));
        i = i + 1;
    }
    assert(string_views(names@).take(n as int) =~= string_views(names@));
    r
}

/// Whether one of the names equals `name` after Unicode lowercasing: the
/// lowercase name is looked for among the lowercase names.
fn names_contain_ignoring_case(names: &Vec<String>, name: &str) -> (r: bool)
    ensures
        r == has_name_ignoring_case(string_views(names@), name@),
{
    let key = to_lowercase(name);
    let keys = lowercased_names(names);
    let r = contains_string(&keys, &key);
    proof {
        let lv = string_views(names@).map_values(|x: Seq<char>| unicode_lowercase(x));
        if r {
            let k = choose|k: int| 0 <= k < lv.len() && lv[k] == key@;
            assert(unicode_lowercase(string_views(names@)[k]) == key@);
        }
        if has_name_ignoring_case(string_views(names@), name@) {
            let k = choose|k: int|
                0 <= k < string_views(names@).len() && unicode_lowercase(
                    #[trigger] string_views(names@)[k],
                ) == unicode_lowercase(name@);
            assert(lv[k] == key@);
        }
    }
    r
}

/// A topic or tag proposal checked (see `checked_naming`).
fn check_naming(
    knowledge_id: &String,
    name: &String,
    rationale: &String,
    c: ConfidenceLevel,
    ks: &Vec<CatalogKnowledge>,
    ids: &Vec<String>,
    topics: bool,
) -> (r: Result<Option<(String, String)>, String>)
    requires
        string_views(ids@) == catalog_ids(ks@),
    ensures
        match r {
            Ok(Some((n, t))) => checked_naming(knowledge_id@, name@, rationale@, c, ks@, topics)
                == Ok::<Option<(Seq<char>, Seq<char>)>, Seq<char>>(Some((n@, t@))),
            Ok(None) => checked_naming(knowledge_id@, name@, rationale@, c, ks@, topics) == Ok::<
                Option<(Seq<char>, Seq<char>)>,
                Seq<char>,
            >(None),
            Err(e) => checked_naming(knowledge_id@, name@, rationale@, c, ks@, topics) == Err::<
                Option<(Seq<char>, Seq<char>)>,
                Seq<char>,
            >(e@),
        },
{
    match require_known_id(ids, knowledge_id) {
        Err(e) => return Err(e),
        Ok(()) => {},
    }
    match c {
        ConfidenceLevel::OutOfRange => {
            return Err("proposal confidence must be between 0 and 1".to_string());
        },
        ConfidenceLevel::Low => {
            return Ok(None);
        },
        ConfidenceLevel::Sufficient => {},
    }
    let max: usize = if topics {
        120
    } else {
        80
    };
    let n = match normalize_name(name.as_str(), max) {
        Err(e) => return Err(e),
        Ok(n) => n,
    };
    let taken = match first_item_index(ks, knowledge_id.as_str()) {
        Some(i) => if topics {
            names_contain_ignoring_case(&ks[i].topics, n.as_str())
        } else {
            names_contain_ignoring_case(&ks[i].tags, n.as_str())
        },
        None => false,
    };
    if taken {
        return Ok(None);
    }
    let t = match normalize_rationale(rationale.as_str()) {
        Err(e) => return Err(e),
        Ok(t) => t,
    };
    Ok(Some((n, t)))
}

/// Whether a relation type reads the same in both directions.
fn symmetric(relation_type: &str) -> (r: bool)
    ensures
        r == (relation_type@ == "related_to"@ || relation_type@ == "contradicts"@),
{
    is_symmetric_relation(relation_type)
}

/// One proposal checked against the catalog (see `checked_action`).
fn check_action(
    p: &ProposalInput,
    ks: &Vec<CatalogKnowledge>,
    ids: &Vec<String>,
    keys: &Vec<String>,
) -> (r: Result<Option<ProposalAction>, String>)
    requires
        string_views(ids@) == catalog_ids(ks@),
    ensures
        match r {
            Ok(Some(a)) => checked_action(p.action@, p.confidence, ks@, string_views(keys@)) == Ok::<
                Option<ActionView>,
                Seq<char>,
            >(Some(a@)),
            Ok(None) => checked_action(p.action@, p.confidence, ks@, string_views(keys@)) == Ok::<
                Option<ActionView>,
                Seq<char>,
            >(None),
            Err(e) => checked_action(p.action@, p.confidence, ks@, string_views(keys@)) == Err::<
                Option<ActionView>,
                Seq<char>,
            >(e@),
        },
{
    match &p.action {
        ProposalAction::TopicAssign { knowledge_id, topic_name, rationale } => {
            match check_naming(knowledge_id, topic_name, rationale, p.confidence, ks, ids, true) {
                Err(e) => Err(e),
                Ok(None) => Ok(None),
                Ok(Some((n, t))) => Ok(
                    Some(
                        ProposalAction::TopicAssign {
                            knowledge_id: knowledge_id.clone(),
                            topic_name: n,
                            rationale: t,
                        },
                    ),
                ),
            }
        },
        ProposalAction::TagAdd { knowledge_id, tag_name, rationale } => {
            match check_naming(knowledge_id, tag_name, rationale, p.confidence, ks, ids, false) {
                Err(e) => Err(e),
                Ok(None) => Ok(None),
                Ok(Some((n, t))) => Ok(
                    Some(
                        ProposalAction::TagAdd {
                            knowledge_id: knowledge_id.clone(),
                            tag_name: n,
                            rationale: t,
                        },
                    ),
                ),
            }
        },
        ProposalAction::RelationCreate { source_id, target_id, relation_type, rationale } => {
            match require_known_id(ids, source_id) {
                Err(e) => return Err(e),
                Ok(()) => {},
            }
            match require_known_id(ids, target_id) {
                Err(e) => return Err(e),
                Ok(()) => {},
            }
            if str_eq(source_id.as_str(), target_id.as_str()) {
                return Err("relation endpoints must differ".to_string());
            }
            match p.confidence {
                ConfidenceLevel::OutOfRange => {
                    return Err("proposal confidence must be between 0 and 1".to_string());
                },
                ConfidenceLevel::Low => {
                    return Ok(None);
                },
                ConfidenceLevel::Sufficient => {},
            }
            let trimmed = trim_str(relation_type.as_str());
            let rt = ascii_lowercase(trimmed.as_str());
            if !is_relation_type(rt.as_str()) {
                let mut message = "unsupported relation type '".to_string();
                push_str(&mut message, rt.as_str());
                push_char(&mut message, '\'');
                proof {
                    reveal_strlit("'");
                    assert(message@ =~= unsupported_relation_message(rt@));
                }
                return Err(message);
            }
            let forward = relation_key(source_id.as_str(), target_id.as_str(), rt.as_str());
            let existing = contains_string(keys, &forward) || (symmetric(rt.as_str()) && {
                let backward = relation_key(target_id.as_str(), source_id.as_str(), rt.as_str());
                contains_string(keys, &backward)
            });
            if existing {
                return Ok(None);
            }
            let t = match normalize_rationale(rationale.as_str()) {
                Err(e) => return Err(e),
                Ok(t) => t,
            };
            Ok(
                Some(
                    ProposalAction::RelationCreate {
                        source_id: source_id.clone(),
                        target_id: target_id.clone(),
                        relation_type: rt,
                        rationale: t,
                    },
                ),
            )
        },
    }
}

/// The identity of a naming (see `naming_identity_of`), from the name's
/// lowercase form.
pub fn naming_identity(kind: &str, knowledge_id: &str, name_key: &str) -> (r: String)
    ensures
        r@ == naming_identity_of(kind@, knowledge_id@, name_key@),
{
    let mut key = kind.to_string();
    push_char(&mut key, '\u{1f}');
    push_str(&mut key, knowledge_id);
    push_char(&mut key, '\u{1f}');
    push_str(&mut key, name_key);
    key
}

/// What makes two proposals the same change (see `proposal_identity_of`).
pub fn proposal_identity(proposal: &ProposalAction) -> (r: String)
    ensures
        r@ == proposal_identity_of(proposal@),
{
    match proposal {
        ProposalAction::TopicAssign { knowledge_id, topic_name, .. } => {
            let lower = to_lowercase(topic_name.as_str());
            naming_identity("topic", knowledge_id.as_str(), lower.as_str())
        },
        ProposalAction::TagAdd { knowledge_id, tag_name, .. } => {
            let lower = to_lowercase(tag_name.as_str());
            naming_identity("tag", knowledge_id.as_str(), lower.as_str())
        },
        ProposalAction::RelationCreate { source_id, target_id, relation_type, .. } => {
            let mut key = "relation".to_string();
            push_char(&mut key, '\u{1f}');
            let rk = if symmetric(relation_type.as_str()) && !str_le(
                source_id.as_str(),
                target_id.as_str(),
            ) {
                relation_key(target_id.as_str(), source_id.as_str(), relation_type.as_str())
            } else {
                relation_key(source_id.as_str(), target_id.as_str(), relation_type.as_str())
            };
            push_str(&mut key, rk.as_str());
            key
        },
    }
}

/// Validates the librarian's proposals against its catalog (see
/// `validated_proposals`). The caller grades each confidence; the result
/// names each kept proposal by its position so that the caller can carry
/// its confidence over.
pub fn validate_proposals(proposals: &Vec<ProposalInput>, catalog: &LibrarianCatalog) -> (r: Result<
    Vec<ValidatedProposal>,
    String,
>)
    ensures
        match r {
            Ok(v) => validated_proposals(proposals@, *catalog) == Ok::<
                Seq<(int, ActionView)>,
                Seq<char>,
            >(validated_views(v@)),
            Err(e) => validated_proposals(proposals@, *catalog) == Err::<
                Seq<(int, ActionView)>,
                Seq<char>,
            >(e@),
        },
{
    if proposals.len() > MAX_PROPOSALS {
        return Err("librarian returned more than 24 proposals".to_string());
    }
    let ks = &catalog.knowledge;
    let ids = knowledge_ids(ks);
    let keys = relation_keys(&catalog.existing_relations);
    let ghost kv = string_views(keys@);
    let ghost ps = proposals@;
    let mut validated: Vec<ValidatedProposal> = Vec::new();
    let mut seen: Vec<String> = Vec::new();
    let n = proposals.len();
    let mut i: usize = 0;
    assert(ps.take(0) =~= Seq::<ProposalInput>::empty());
    assert(validated_views(validated@) =~= Seq::<(int, ActionView)>::empty());
    while i < n
        invariant
            n == ps.len(),
            ps == proposals@,
            n <= 24,
            string_views(ids@) == catalog_ids(ks@),
            ks == &catalog.knowledge,
            kv == string_views(keys@),
            kv == catalog_relation_keys(catalog.existing_relations@),
            i <= n,
            validated_actions(ps.take(i as int), ks@, kv) == Ok::<
                Seq<(int, ActionView)>,
                Seq<char>,
            >(validated_views(validated@)),
            seen@.len() == validated@.len(),
            forall|k: int|
                0 <= k < validated@.len() ==> (#[trigger] seen@[k])@ == proposal_identity_of(
                    validated@[k].action@,
                ),
        decreases n - i,
    {
        proof {
            let post = ps.take(i + 1);
            assert(post.drop_last() =~= ps.take(i as int));
            assert(post.last() == ps[i as int]);
            assert(post.len() - 1 == i);
        }
        let ghost done = validated_views(validated@);
        let p = &proposals[i];
        match check_action(p, ks, &ids, &keys) {
            Err(e) => {
                proof {
                    lemma_validated_actions_none_prefix(ps, ks@, kv, i + 1);
                }
                return Err(e);
            },
            Ok(None) => {},
            Ok(Some(action)) => {
                let key = proposal_identity(&action);
                if contains_string(&seen, &key) {
                    proof {
                        let k = choose|k: int|
                            0 <= k < string_views(seen@).len() && string_views(seen@)[k] == key@;
                        assert(seen@[k]@ == key@);
                        assert(done[k] == (validated@[k].index as int, validated@[k].action@));
                        assert(proposal_identity_of(done[k].1) == proposal_identity_of(action@));
                    }
                } else {
                    proof {
                        assert forall|k: int| 0 <= k < done.len() implies proposal_identity_of(
                            #[trigger] done[k].1,
                        ) != proposal_identity_of(action@) by {
                            assert(done[k] == (validated@[k].index as int, validated@[k].action@));
                            assert(string_views(seen@)[k] == seen@[k]@);
                        }
                    }
                    validated.push(ValidatedProposal { index: i, action });
                    seen.push(key);
                    assert(validated_views(validated@) =~= done.push(
                        (i as int, validated@.last().action@),
                    ));
                }
            },
        }
        i = i + 1;
    }
    assert(ps.take(n as int) =~= ps);
    Ok(validated)
}


/// The knowledge an action names is all in the catalog, and a relation
/// joins two different pieces.
pub open spec fn names_known(a: ActionView, ids: Seq<Seq<char>>) -> bool {
    match a {
        ActionView::Topic { knowledge_id, .. } => ids.contains(knowledge_id),
        ActionView::Tag { knowledge_id, .. } => ids.contains(knowledge_id),
        ActionView::Relation { source, target, .. } => ids.contains(source) && ids.contains(target)
            && source != target,
    }
}

/// The validator never invents knowledge: every kept proposal names only
/// knowledge of the catalog (a relation two different pieces), carries the
/// position of a proposal it was given, and no two kept proposals make the
/// same change.
pub proof fn lemma_validated_actions_sound(
    ps: Seq<ProposalInput>,
    ks: Seq<CatalogKnowledge>,
    keys: Seq<Seq<char>>,
)
    ensures
        validated_actions(ps, ks, keys) matches Ok(acc) ==> (forall|k: int|
            0 <= k < acc.len() ==> names_known((#[trigger] acc[k]).1, catalog_ids(ks)) && 0
                <= acc[k].0 < ps.len()) && (forall|a: int, b: int|
            0 <= a < b < acc.len() ==> proposal_identity_of((#[trigger] acc[a]).1)
                != proposal_identity_of((#[trigger] acc[b]).1)),
    decreases ps.len(),
{
    if ps.len() > 0 {
        lemma_validated_actions_sound(ps.drop_last(), ks, keys);
        if let Ok(acc) = validated_actions(ps, ks, keys) {
            let prev = validated_actions(ps.drop_last(), ks, keys)->Ok_0;
            if acc.len() > prev.len() {
                assert(acc == prev.push(acc.last()));
                assert forall|k: int| 0 <= k < acc.len() implies names_known(
                    (#[trigger] acc[k]).1,
                    catalog_ids(ks),
                ) && 0 <= acc[k].0 < ps.len() by {
                    if k < prev.len() {
                        assert(acc[k] == prev[k]);
                    }
                }
                assert forall|a: int, b: int| 0 <= a < b < acc.len() implies proposal_identity_of(
                    (#[trigger] acc[a]).1,
                ) != proposal_identity_of((#[trigger] acc[b]).1) by {
                    assert(acc[a] == prev[a]);
                    if b < prev.len() {
                        assert(acc[b] == prev[b]);
                    }
                }
            } else {
                assert(acc == prev);
            }
        }
    }
}


/// Whether a proposal is to be decided (`Ok(false)`) or already was decided
/// the same way (`Ok(true)`, and nothing changes); any other decided
/// proposal is an error.
pub fn proposal_decision(status: &str, decided: &str) -> (r: Result<bool, String>)
    ensures
        if status@ == decided@ {
            r == Ok::<bool, String>(true)
        } else if status@ == "pending"@ {
            r == Ok::<bool, String>(false)
        } else {
            r matches Err(e) && e@ == "librarian proposal is no longer pending"@
        },
{
    if str_eq(status, decided) {
        Ok(true)
    } else if str_eq(status, "pending") {
        Ok(false)
    } else {
        Err("librarian proposal is no longer pending".to_string())
    }
}

/// The kinds of stored proposal that can be applied.
#[derive(Clone, Copy, Debug, PartialEq, Eq)]
pub enum ApplyKind {
    TopicAssign,
    TagAdd,
    RelationCreate,
}

/// The kind of a stored proposal by its action type.
pub fn apply_kind(action_type: &str) -> (r: Result<ApplyKind, String>)
    ensures
        if action_type@ == "topic_assign"@ {
            r == Ok::<ApplyKind, String>(ApplyKind::TopicAssign)
        } else if action_type@ == "tag_add"@ {
            r == Ok::<ApplyKind, String>(ApplyKind::TagAdd)
        } else if action_type@ == "relation_create"@ {
            r == Ok::<ApplyKind, String>(ApplyKind::RelationCreate)
        } else {
            r matches Err(e) && e@ == "unsupported librarian action"@
        },
{
    if str_eq(action_type, "topic_assign") {
        Ok(ApplyKind::TopicAssign)
    } else if str_eq(action_type, "tag_add") {
        Ok(ApplyKind::TagAdd)
    } else if str_eq(action_type, "relation_create") {
        Ok(ApplyKind::RelationCreate)
    } else {
        Err("unsupported librarian action".to_string())
    }
}

} // verus!
