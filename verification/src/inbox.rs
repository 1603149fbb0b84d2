//! The inbox of captured material waiting to become formal knowledge: edited
//! draft fields, the search for existing knowledge that a draft may repeat,
//! the grounding of draft evidence in its source, and the plan of accepting
//! the selected drafts.
use vstd::prelude::*;
use crate::curation::contains_term_ignore_case;
use crate::internalization::{normalize_strings, normalized_strings};
use crate::search::{fts_terms, join_fts_terms, like_escape, like_escaped, trim_punct, trim_punctuation};
use crate::text::{ascii_lower, ascii_lowercase, char_count, contains_string, str_eq, trim_take_str, char_vec_views, chars_of, contains_seq, find_chars, is_first_occurrence, join, split_words, string_views, sub_chars, take_chars, trim, trim_chars, trim_str, words};

verus! {

/// One captured item in the inbox, with its source.
#[derive(Clone, Debug)]
pub struct InboxItemRecord {
    pub id: String,
    pub source_id: String,
    pub anchor_knowledge_id: String,
    pub status: String,
    pub processing_stage: String,
    pub progress_current: i64,
    pub progress_total: i64,
    pub error: Option<String>,
    pub platform: String,
    pub url: Option<String>,
    pub title: Option<String>,
    pub author: Option<String>,
    pub selected_text: String,
    pub captured_at: i64,
    pub draft_count: i64,
    pub created_at: i64,
    pub updated_at: i64,
}

/// What accepting an inbox item created and updated.
#[derive(Clone, Debug)]
pub struct InboxAcceptResult {
    pub inbox_id: String,
    pub knowledge_unit_ids: Vec<String>,
    pub updated_knowledge_unit_ids: Vec<String>,
}

/// The query that lists inbox items with their source and draft count.
pub open spec fn inbox_query() -> Seq<char> {
    "SELECT
        i.id, i.source_id, i.anchor_knowledge_id, i.status, i.processing_stage,
        i.progress_current, i.progress_total, i.error,
        s.platform, s.url, s.title, s.author, s.selected_text, s.captured_at,
        (SELECT COUNT(*) FROM knowledge_drafts d WHERE d.inbox_id = i.id),
        i.created_at, i.updated_at
     FROM inbox_items i
     JOIN sources s ON s.id = i.source_id"@
}

/// The first three trimmed concepts of at least two characters, skipping
/// ones equal to an earlier term up to ASCII case.
pub open spec fn draft_concept_terms(concepts: Seq<Seq<char>>) -> Seq<Seq<char>>
    decreases concepts.len(),
{
    if concepts.len() == 0 {
        Seq::empty()
    } else {
        let t = draft_concept_terms(concepts.drop_last());
        let v = trim(concepts.last());
        if t.len() < 3 && v.len() >= 2 && !(exists|k: int|
            0 <= k < t.len() && ascii_lower(#[trigger] t[k]) == ascii_lower(v)) {
            t.push(v)
        } else {
            t
        }
    }
}

/// `terms` extended, up to six in all, by the claim's words without ASCII
/// punctuation at their ends that keep two characters and differ from every
/// earlier term up to ASCII case.
pub open spec fn draft_claim_terms(terms: Seq<Seq<char>>, ws: Seq<Seq<char>>) -> Seq<Seq<char>>
    decreases ws.len(),
{
    if ws.len() == 0 {
        terms
    } else {
        let t = draft_claim_terms(terms, ws.drop_last());
        let v = trim_punct(ws.last());
        if t.len() < 6 && v.len() >= 2 && !(exists|k: int|
            0 <= k < t.len() && ascii_lower(#[trigger] t[k]) == ascii_lower(v)) {
            t.push(v)
        } else {
            t
        }
    }
}

/// The terms that find existing knowledge a draft may repeat: its concepts,
/// then words of its claim, or else the claim's first 16 characters.
pub open spec fn draft_terms(claim: Seq<char>, concepts: Seq<Seq<char>>) -> Seq<Seq<char>> {
    let t = draft_claim_terms(draft_concept_terms(concepts), words(claim));
    if t.len() > 0 {
        t
    } else if take_chars(claim, 16).len() >= 2 {
        seq![take_chars(claim, 16)]
    } else {
        Seq::empty()
    }
}

/// The FTS5 expression of a draft's terms, as prefix terms joined by `OR`.
pub open spec fn draft_expression(claim: Seq<char>, concepts: Seq<Seq<char>>) -> Seq<char> {
    join(fts_terms(draft_terms(claim, concepts)), " OR "@)
}

/// The query that lists inbox items (see `inbox_query`).
pub fn inbox_select() -> (r: &'static str)
    ensures
        r@ == inbox_query(),
{
    "SELECT
        i.id, i.source_id, i.anchor_knowledge_id, i.status, i.processing_stage,
        i.progress_current, i.progress_total, i.error,
        s.platform, s.url, s.title, s.author, s.selected_text, s.captured_at,
        (SELECT COUNT(*) FROM knowledge_drafts d WHERE d.inbox_id = i.id),
        i.created_at, i.updated_at
     FROM inbox_items i
     JOIN sources s ON s.id = i.source_id"
}

/// The first `max_items` distinct edited values, trimmed, that are not empty
/// and have at most `max_chars` characters, in order.
pub fn normalize_edit_strings(values: Vec<String>, max_items: usize, max_chars: usize) -> (r: Vec<
    String,
>)
    ensures
        string_views(r@) == normalized_strings(
            string_views(values@),
            max_items as int,
            max_chars as int,
        ),
{
    normalize_strings(values, max_items, max_chars)
}

/// Character offsets `(start, end)` of the first verbatim occurrence of the
/// trimmed draft quote in the source; an error when the quote is blank or
/// not in the source.
pub fn evidence_offsets(source: &str, quote: &str) -> (r: Result<(i64, i64), String>)
    requires
        source@.len() <= i64::MAX,
    ensures
        match r {
            Ok((a, b)) => trim(quote@).len() > 0 && is_first_occurrence(
                source@,
                trim(quote@),
                a as int,
            ) && b == a + trim(quote@).len(),
            Err(e) => if trim(quote@).len() == 0 {
                e@ == "draft evidence quote is empty"@
            } else {
                !contains_seq(source@, trim(quote@)) && e@
                    == "draft evidence is not an exact source quote"@
            },
        },
{
    let q = trim_str(quote);
    let qc = chars_of(q.as_str());
    if qc.len() == 0 {
        return Err("draft evidence quote is empty".to_string());
    }
    let src = chars_of(source);
    match find_chars(src.as_slice(), qc.as_slice()) {
        Some(start) => {
            let sl = src.len();
            assert(start + qc@.len() <= sl);
            let start64 = start as i64;
            let end64 = (start + qc.len()) as i64;
            Ok((start64, end64))
        },
        None => Err("draft evidence is not an exact source quote".to_string()),
    }
}

/// The text with `\`, `%` and `_` escaped for a `LIKE` pattern.
pub fn escape_like(value: &str) -> (r: String)
    ensures
        r@ == like_escaped(value@),
{
    like_escape(value)
}

/// The FTS5 expression that finds existing knowledge a draft may repeat
/// (see `draft_expression`), from the draft's claim and concepts.
pub fn draft_fts_expression(core_claim: &str, concepts: &Vec<String>) -> (r: String)
    ensures
        r@ == draft_expression(core_claim@, string_views(concepts@)),
{
    let ghost cs = string_views(concepts@);
    let mut terms: Vec<Vec<char>> = Vec::new();
    let n = concepts.len();
    let mut i: usize = 0;
    assert(cs.take(0) =~= Seq::<Seq<char>>::empty());
    assert(char_vec_views(terms@) =~= Seq::<Seq<char>>::empty());
    while i < n
        invariant
            n == concepts@.len(),
            cs == string_views(concepts@),
            i <= n,
            char_vec_views(terms@) == draft_concept_terms(cs.take(i as int)),
        decreases n - i,
    {
        proof {
            let post = cs.take(i + 1);
            assert(post.drop_last() =~= cs.take(i as int));
            assert(post.last() == concepts@[i as int]@);
        }
        if terms.len() < 3 {
            let cv = chars_of(concepts[i].as_str());
            let v = trim_chars(cv.as_slice());
            if v.len() >= 2 && !contains_term_ignore_case(&terms, &v) {
                terms.push(v);
                assert(char_vec_views(terms@) =~= char_vec_views(terms@.drop_last()).push(
                    terms@.last()@,
                ));
            }
        }
        i = i + 1;
    }
    assert(cs.take(n as int) =~= cs);
    let ghost first = char_vec_views(terms@);
    let claim = chars_of(core_claim);
    let ws = split_words(claim.as_slice());
    let ghost wv = char_vec_views(ws@);
    let m = ws.len();
    let mut j: usize = 0;
    assert(wv.take(0) =~= Seq::<Seq<char>>::empty());
    while j < m
        invariant
            m == ws@.len(),
            wv == char_vec_views(ws@),
            wv == words(core_claim@),
            first == draft_concept_terms(cs),
            j <= m,
            char_vec_views(terms@) == draft_claim_terms(first, wv.take(j as int)),
        decreases m - j,
    {
        proof {
            let post = wv.take(j + 1);
            assert(post.drop_last() =~= wv.take(j as int));
            assert(post.last() == ws@[j as int]@);
        }
        if terms.len() < 6 {
            let t = trim_punctuation(ws[j].as_slice());
            if t.len() >= 2 && !contains_term_ignore_case(&terms, &t) {
                terms.push(t);
                assert(char_vec_views(terms@) =~= char_vec_views(terms@.drop_last()).push(
                    terms@.last()@,
                ));
            }
        }
        j = j + 1;
    }
    assert(wv.take(m as int) =~= wv);
    if terms.len() == 0 {
        let fallback = if claim.len() > 16 {
            sub_chars(claim.as_slice(), 0, 16)
        } else {
            sub_chars(claim.as_slice(), 0, claim.len())
        };
        assert(claim@.subrange(0, claim@.len() as int) =~= claim@);
        if fallback.len() >= 2 {
            terms.push(fallback);
            assert(char_vec_views(terms@) =~= seq![take_chars(core_claim@, 16)]);
        } else {
            assert(char_vec_views(terms@) =~= Seq::<Seq<char>>::empty());
        }
    }
    join_fts_terms(&terms, " OR ")
}


// ---------------------------------------------------------------------------
// The pre-ingest judge's decisions and manual corrections of drafts
// ---------------------------------------------------------------------------

/// A decision of the pre-ingest judge on one (draft, existing knowledge)
/// pair; whether its confidence lies in `0..=1` is checked by the caller.
#[derive(Clone, Debug)]
pub struct DraftDecisionInput {
    pub draft_id: String,
    pub existing_id: String,
    pub classification: String,
    pub rationale: String,
    pub confidence_in_range: bool,
}

/// A decision that is kept, with its position in the input.
#[derive(Clone, Debug)]
pub struct CheckedDraftDecision {
    pub index: usize,
    pub draft_id: String,
    pub existing_id: String,
    pub classification: String,
    pub relation_type: Option<String>,
    pub rationale: String,
}

pub struct DraftDecisionView {
    pub index: int,
    pub draft_id: Seq<char>,
    pub existing_id: Seq<char>,
    pub classification: Seq<char>,
    pub relation_type: Option<Seq<char>>,
    pub rationale: Seq<char>,
}

impl View for CheckedDraftDecision {
    type V = DraftDecisionView;

    open spec fn view(&self) -> DraftDecisionView {
        DraftDecisionView {
            index: self.index as int,
            draft_id: self.draft_id@,
            existing_id: self.existing_id@,
            classification: self.classification@,
            relation_type: match self.relation_type {
                Some(t) => Some(t@),
                None => None,
            },
            rationale: self.rationale@,
        }
    }
}

pub open spec fn draft_decision_views(v: Seq<CheckedDraftDecision>) -> Seq<DraftDecisionView> {
    v.map_values(|d: CheckedDraftDecision| d@)
}

/// The relation a draft classification carries: none for new and
/// duplicate, `extends` for a supplement, `contradicts` for a conflict;
/// any other classification is unsupported.
pub open spec fn draft_relation_of(c: Seq<char>) -> Option<Option<Seq<char>>> {
    if c == "new"@ || c == "duplicate"@ {
        Some(None)
    } else if c == "supplement"@ {
        Some(Some("extends"@))
    } else if c == "conflict"@ {
        Some(Some("contradicts"@))
    } else {
        None
    }
}

/// The judge's decisions checked in turn against the supplied pairs: each
/// must name a supplied pair by its trimmed ids; a later decision on a pair
/// already seen is dropped; the confidence must be in range and the
/// classification supported. The state is the pairs seen and the kept
/// decisions, their rationale trimmed and cut to 600 characters.
pub open spec fn checked_draft_decisions(
    ds: Seq<DraftDecisionInput>,
    allowed: Seq<(Seq<char>, Seq<char>)>,
) -> Result<(Seq<(Seq<char>, Seq<char>)>, Seq<DraftDecisionView>), Seq<char>>
    decreases ds.len(),
{
    if ds.len() == 0 {
        Ok((Seq::empty(), Seq::empty()))
    } else {
        match checked_draft_decisions(ds.drop_last(), allowed) {
            Err(e) => Err(e),
            Ok((seen, kept)) => {
                let d = ds.last();
                let pair = (trim(d.draft_id@), trim(d.existing_id@));
                let c = ascii_lower(trim(d.classification@));
                if !allowed.contains(pair) {
                    Err("draft analysis referenced an unknown candidate pair"@)
                } else if seen.contains(pair) {
                    Ok((seen, kept))
                } else if !d.confidence_in_range {
                    Err("draft analysis confidence must be between 0 and 1"@)
                } else {
                    match draft_relation_of(c) {
                        None => Err("draft analysis returned unsupported classification"@),
                        Some(rel) => Ok(
                            (
                                seen.push(pair),
                                kept.push(
                                    DraftDecisionView {
                                        index: ds.len() - 1,
                                        draft_id: pair.0,
                                        existing_id: pair.1,
                                        classification: c,
                                        relation_type: rel,
                                        rationale: take_chars(trim(d.rationale@), 600),
                                    },
                                ),
                            ),
                        ),
                    }
                }
            },
        }
    }
}

/// A rejected draft decision rejects every longer list that starts with it.
pub proof fn lemma_checked_draft_decisions_err_prefix(
    ds: Seq<DraftDecisionInput>,
    allowed: Seq<(Seq<char>, Seq<char>)>,
    i: int,
)
    requires
        0 <= i <= ds.len(),
        checked_draft_decisions(ds.take(i), allowed) is Err,
    ensures
        checked_draft_decisions(ds, allowed) == checked_draft_decisions(ds.take(i), allowed),
    decreases ds.len() - i,
{
    if i < ds.len() {
        assert(ds.take(i + 1).drop_last() =~= ds.take(i));
        lemma_checked_draft_decisions_err_prefix(ds, allowed, i + 1);
    } else {
        assert(ds.take(i) =~= ds);
    }
}

pub open spec fn id_pair_views(v: Seq<(String, String)>) -> Seq<(Seq<char>, Seq<char>)> {
    v.map_values(|p: (String, String)| (p.0@, p.1@))
}

/// Whether the pair of ids is in the list.
fn contains_id_pair(v: &Vec<(String, String)>, a: &String, b: &String) -> (r: bool)
    ensures
        r == id_pair_views(v@).contains((a@, b@)),
{
    let n = v.len();
    let mut i: usize = 0;
    while i < n
        invariant
            n == v@.len(),
            i <= n,
            forall|k: int| 0 <= k < i ==> (v@[k].0@, v@[k].1@) != (a@, b@),
        decreases n - i,
    {
        if str_eq(v[i].0.as_str(), a.as_str()) && str_eq(v[i].1.as_str(), b.as_str()) {
            assert(id_pair_views(v@)[i as int] == (a@, b@));
            return true;
        }
        i = i + 1;
    }
    proof {
        if id_pair_views(v@).contains((a@, b@)) {
            let k = choose|k: int|
                0 <= k < id_pair_views(v@).len() && id_pair_views(v@)[k] == (a@, b@);
            assert((v@[k].0@, v@[k].1@) == (a@, b@));
        }
    }
    false
}

/// Validates the pre-ingest judge's decisions against the supplied
/// (draft id, existing id) pairs (see `checked_draft_decisions`).
pub fn validate_analysis_decisions(
    decisions: &Vec<DraftDecisionInput>,
    pairs: &Vec<(String, String)>,
) -> (r: Result<Vec<CheckedDraftDecision>, String>)
    ensures
        match r {
            Ok(v) => checked_draft_decisions(decisions@, id_pair_views(pairs@)) matches Ok(
                (_, kept),
            ) && kept == draft_decision_views(v@),
            Err(e) => checked_draft_decisions(decisions@, id_pair_views(pairs@)) == Err::<
                (Seq<(Seq<char>, Seq<char>)>, Seq<DraftDecisionView>),
                Seq<char>,
            >(e@),
        },
{
    let ghost av = id_pair_views(pairs@);
    let ghost ds = decisions@;
    let mut seen: Vec<(String, String)> = Vec::new();
    let mut kept: Vec<CheckedDraftDecision> = Vec::new();
    let n = decisions.len();
    let mut i: usize = 0;
    assert(ds.take(0) =~= Seq::<DraftDecisionInput>::empty());
    assert(draft_decision_views(kept@) =~= Seq::<DraftDecisionView>::empty());
    assert(id_pair_views(seen@) =~= Seq::<(Seq<char>, Seq<char>)>::empty());
    while i < n
        invariant
            n == ds.len(),
            ds == decisions@,
            av == id_pair_views(pairs@),
            i <= n,
            checked_draft_decisions(ds.take(i as int), av) == Ok::<
                (Seq<(Seq<char>, Seq<char>)>, Seq<DraftDecisionView>),
                Seq<char>,
            >((id_pair_views(seen@), draft_decision_views(kept@))),
        decreases n - i,
    {
        proof {
            let post = ds.take(i + 1);
            assert(post.drop_last() =~= ds.take(i as int));
            assert(post.last() == ds[i as int]);
        }
        let d = &decisions[i];
        let draft_id = trim_str(d.draft_id.as_str());
        let existing_id = trim_str(d.existing_id.as_str());
        if !contains_id_pair(pairs, &draft_id, &existing_id) {
            proof {
                lemma_checked_draft_decisions_err_prefix(ds, av, i + 1);
            }
            return Err("draft analysis referenced an unknown candidate pair".to_string());
        }
        if !contains_id_pair(&seen, &draft_id, &existing_id) {
            if !d.confidence_in_range {
                proof {
                    lemma_checked_draft_decisions_err_prefix(ds, av, i + 1);
                }
                return Err("draft analysis confidence must be between 0 and 1".to_string());
            }
            let trimmed = trim_str(d.classification.as_str());
            let classification = ascii_lowercase(trimmed.as_str());
            let c = classification.as_str();
            let relation_type = if str_eq(c, "new") || str_eq(c, "duplicate") {
                None
            } else if str_eq(c, "supplement") {
                Some("extends".to_string())
            } else if str_eq(c, "conflict") {
                Some("contradicts".to_string())
            } else {
                proof {
                    lemma_checked_draft_decisions_err_prefix(ds, av, i + 1);
                }
                return Err("draft analysis returned unsupported classification".to_string());
            };
            let rationale = trim_take_str(d.rationale.as_str(), 600);
            let ghost seen0 = id_pair_views(seen@);
            let ghost kept0 = draft_decision_views(kept@);
            seen.push((draft_id.clone(), existing_id.clone()));
            kept.push(
                CheckedDraftDecision {
                    index: i,
                    draft_id,
                    existing_id,
                    classification,
                    relation_type,
                    rationale,
                },
            );
            assert(id_pair_views(seen@) =~= seen0.push((seen@.last().0@, seen@.last().1@)));
            assert(draft_decision_views(kept@) =~= kept0.push(kept@.last()@));
        }
        i = i + 1;
    }
    assert(ds.take(n as int) =~= ds);
    Ok(kept)
}

/// A corrected draft's id, claim and classification checked: the id and
/// claim trimmed, the claim 1 to 2000 characters, the classification
/// trimmed and lowercased one of new, duplicate, supplement or conflict.
pub open spec fn checked_draft_edit(
    draft_id: Seq<char>,
    core_claim: Seq<char>,
    classification: Seq<char>,
) -> Result<(Seq<char>, Seq<char>, Seq<char>), Seq<char>> {
    let c = ascii_lower(trim(classification));
    if trim(draft_id).len() == 0 {
        Err("draft id is empty"@)
    } else if trim(core_claim).len() == 0 || trim(core_claim).len() > 2000 {
        Err("draft core claim is empty or too long"@)
    } else if !(c == "new"@ || c == "duplicate"@ || c == "supplement"@ || c == "conflict"@) {
        Err("unsupported draft classification"@)
    } else {
        Ok((trim(draft_id), trim(core_claim), c))
    }
}

/// Checks the id, claim and classification of a corrected draft (see
/// `checked_draft_edit`).
pub fn check_draft_edit(draft_id: &str, core_claim: &str, classification: &str) -> (r: Result<
    (String, String, String),
    String,
>)
    ensures
        match r {
            Ok((a, b, c)) => checked_draft_edit(draft_id@, core_claim@, classification@) == Ok::<
                (Seq<char>, Seq<char>, Seq<char>),
                Seq<char>,
            >((a@, b@, c@)),
            Err(e) => checked_draft_edit(draft_id@, core_claim@, classification@) == Err::<
                (Seq<char>, Seq<char>, Seq<char>),
                Seq<char>,
            >(e@),
        },
{
    let id = trim_str(draft_id);
    if char_count(id.as_str()) == 0 {
        return Err("draft id is empty".to_string());
    }
    let claim = trim_str(core_claim);
    let n = char_count(claim.as_str());
    if n == 0 || n > 2000 {
        return Err("draft core claim is empty or too long".to_string());
    }
    let trimmed = trim_str(classification);
    let c = ascii_lowercase(trimmed.as_str());
    let s = c.as_str();
    if !(str_eq(s, "new") || str_eq(s, "duplicate") || str_eq(s, "supplement") || str_eq(
        s,
        "conflict",
    )) {
        return Err("unsupported draft classification".to_string());
    }
    Ok((id, claim, c))
}

/// Only a pending draft of a ready inbox item can be corrected.
pub fn draft_correctable(inbox_status: &str, decision: &str) -> (r: bool)
    ensures
        r == (inbox_status@ == "ready"@ && decision@ == "pending"@),
{
    str_eq(inbox_status, "ready") && str_eq(decision, "pending")
}

/// The related knowledge and relation of a corrected draft: none for a new
/// draft; otherwise the trimmed related id is required, with no relation
/// for a duplicate, `extends` for a supplement, `contradicts` for a
/// conflict.
pub open spec fn draft_edit_relation(classification: Seq<char>, related: Option<String>) -> Result<
    (Option<Seq<char>>, Option<Seq<char>>),
    Seq<char>,
> {
    let target = match related {
        Some(v) => if trim(v@).len() > 0 {
            Some(trim(v@))
        } else {
            None
        },
        None => None,
    };
    if classification == "new"@ {
        Ok((None, None))
    } else {
        match target {
            None => Err(classification + " draft requires related knowledge"@),
            Some(t) => Ok(
                (
                    Some(t),
                    if classification == "supplement"@ {
                        Some("extends"@)
                    } else if classification == "conflict"@ {
                        Some("contradicts"@)
                    } else {
                        None
                    },
                ),
            ),
        }
    }
}

/// The related knowledge and relation of a corrected draft (see
/// `draft_edit_relation`); `classification` is one that
/// `check_draft_edit` accepted.
pub fn draft_relation(classification: &str, related_knowledge_id: Option<String>) -> (r: Result<
    (Option<String>, Option<String>),
    String,
>)
    requires
        classification@ == "new"@ || classification@ == "duplicate"@ || classification@
            == "supplement"@ || classification@ == "conflict"@,
    ensures
        match r {
            Ok((a, b)) => draft_edit_relation(classification@, related_knowledge_id) == Ok::<
                (Option<Seq<char>>, Option<Seq<char>>),
                Seq<char>,
            >(
                (
                    match a {
                        Some(t) => Some(t@),
                        None => None,
                    },
                    match b {
                        Some(t) => Some(t@),
                        None => None,
                    },
                ),
            ),
            Err(e) => draft_edit_relation(classification@, related_knowledge_id) == Err::<
                (Option<Seq<char>>, Option<Seq<char>>),
                Seq<char>,
            >(e@),
        },
{
    if str_eq(classification, "new") {
        return Ok((None, None));
    }
    let target = match &related_knowledge_id {
        Some(v) => {
            let t = trim_str(v.as_str());
            if char_count(t.as_str()) > 0 {
                Some(t)
            } else {
                None
            }
        },
        None => None,
    };
    match target {
        None => {
            let mut message = classification.to_string();
            crate::text::push_str(&mut message, " draft requires related knowledge");
            Err(message)
        },
        Some(t) => {
            let relation = if str_eq(classification, "supplement") {
                Some("extends".to_string())
            } else if str_eq(classification, "conflict") {
                Some("contradicts".to_string())
            } else {
                None
            };
            Ok((Some(t), relation))
        },
    }
}

/// The concepts searched for when full-text search found too few
/// candidates: trimmed, at least two characters, the first four of them.
pub open spec fn search_concepts(concepts: Seq<Seq<char>>) -> Seq<Seq<char>>
    decreases concepts.len(),
{
    if concepts.len() == 0 {
        Seq::empty()
    } else {
        let r = search_concepts(concepts.drop_last());
        let v = trim(concepts.last());
        if r.len() < 4 && v.len() >= 2 {
            r.push(v)
        } else {
            r
        }
    }
}

/// The `LIKE` patterns that find knowledge sharing a draft's concepts (see
/// `search_concepts`), each matching the escaped concept anywhere.
pub fn concept_like_patterns(concepts: &Vec<String>) -> (r: Vec<String>)
    ensures
        string_views(r@) == search_concepts(string_views(concepts@)).map_values(
            |c: Seq<char>| seq!['%'] + like_escaped(c) + seq!['%'],
        ),
{
    let ghost cs = string_views(concepts@);
    let ghost f = |c: Seq<char>| seq!['%'] + like_escaped(c) + seq!['%'];
    let mut r: Vec<String> = Vec::new();
    let mut count: usize = 0;
    let n = concepts.len();
    let mut i: usize = 0;
    assert(cs.take(0) =~= Seq::<Seq<char>>::empty());
    assert(string_views(r@) =~= Seq::<Seq<char>>::empty());
    while i < n
        invariant
            n == concepts@.len(),
            cs == string_views(concepts@),
            f == (|c: Seq<char>| seq!['%'] + like_escaped(c) + seq!['%']),
            i <= n,
            count == search_concepts(cs.take(i as int)).len(),
            string_views(r@) == search_concepts(cs.take(i as int)).map_values(f),
        decreases n - i,
    {
        proof {
            let post = cs.take(i + 1);
            assert(post.drop_last() =~= cs.take(i as int));
            assert(post.last() == concepts@[i as int]@);
        }
        let t = trim_str(concepts[i].as_str());
        if count < 4 && char_count(t.as_str()) >= 2 {
            let ghost before = string_views(r@);
            let mut pattern = String::new();
            crate::text::push_char(&mut pattern, '%');
            let escaped = escape_like(t.as_str());
            crate::text::push_str(&mut pattern, escaped.as_str());
            crate::text::push_char(&mut pattern, '%');
            assert(pattern@ =~= seq!['%'] + like_escaped(t@) + seq!['%']);
            assert(f(t@) == seq!['%'] + like_escaped(t@) + seq!['%']);
            r.push(pattern);
            count = count + 1;
            proof {
                let prev = search_concepts(cs.take(i as int));
                assert(search_concepts(cs.take(i + 1)) == prev.push(t@));
                assert(prev.push(t@).map_values(f) =~= prev.map_values(f).push(f(t@)));
                assert(string_views(r@) =~= before.push(r@.last()@));
            }
        }
        i = i + 1;
    }
    assert(cs.take(n as int) =~= cs);
    r
}


/// Every kept draft decision is on a supplied pair, no pair twice, and its
/// relation follows its classification.
pub proof fn lemma_checked_draft_decisions_sound(
    ds: Seq<DraftDecisionInput>,
    allowed: Seq<(Seq<char>, Seq<char>)>,
)
    ensures
        checked_draft_decisions(ds, allowed) matches Ok((seen, kept)) ==> seen.len() == kept.len()
            && (forall|k: int|
            0 <= k < kept.len() ==> allowed.contains(
                ((#[trigger] kept[k]).draft_id, kept[k].existing_id),
            ) && seen[k] == (kept[k].draft_id, kept[k].existing_id) && draft_relation_of(
                kept[k].classification,
            ) == Some(kept[k].relation_type)) && seen.no_duplicates(),
    decreases ds.len(),
{
    if ds.len() > 0 {
        lemma_checked_draft_decisions_sound(ds.drop_last(), allowed);
        if let Ok((seen, kept)) = checked_draft_decisions(ds, allowed) {
            let (seen0, kept0) = checked_draft_decisions(ds.drop_last(), allowed)->Ok_0;
            if kept.len() > kept0.len() {
                assert(kept == kept0.push(kept.last()));
                assert(seen == seen0.push(seen.last()));
                assert forall|k: int| 0 <= k < kept.len() implies allowed.contains(
                    ((#[trigger] kept[k]).draft_id, kept[k].existing_id),
                ) && seen[k] == (kept[k].draft_id, kept[k].existing_id) && draft_relation_of(
                    kept[k].classification,
                ) == Some(kept[k].relation_type) by {
                    if k < kept0.len() {
                        assert(kept[k] == kept0[k]);
                        assert(seen[k] == seen0[k]);
                    }
                }
                assert forall|a: int, b: int| 0 <= a < b < seen.len() implies seen[a] != seen[b] by {
                    assert(seen[a] == seen0[a]);
                    if b < seen0.len() {
                        assert(seen[b] == seen0[b]);
                    }
                }
            } else {
                assert(kept == kept0);
                assert(seen == seen0);
            }
        }
    }
}


// ---------------------------------------------------------------------------
// Accepting drafts
// ---------------------------------------------------------------------------

/// A draft as acceptance reads it.
#[derive(Clone, Debug)]
pub struct AcceptDraft {
    pub id: String,
    pub classification: String,
    pub related_knowledge_id: Option<String>,
}

pub struct AcceptDraftView {
    pub id: Seq<char>,
    pub classification: Seq<char>,
    pub related: Option<Seq<char>>,
}

impl View for AcceptDraft {
    type V = AcceptDraftView;

    open spec fn view(&self) -> AcceptDraftView {
        AcceptDraftView {
            id: self.id@,
            classification: self.classification@,
            related: match self.related_knowledge_id {
                Some(t) => Some(t@),
                None => None,
            },
        }
    }
}

pub open spec fn draft_views(v: Seq<AcceptDraft>) -> Seq<AcceptDraftView> {
    v.map_values(|d: AcceptDraft| d@)
}

/// What acceptance does with one selected draft.
#[derive(Clone, Debug)]
pub enum AcceptStep {
    /// The draft repeats the target: its evidence and source are added there.
    Duplicate { draft_id: String, target_id: String },
    /// The draft becomes formal knowledge: the inbox's anchor when
    /// `use_anchor`, else a new unit; a supplement or a conflict is related
    /// to its target by the relation type given.
    Promote { draft_id: String, use_anchor: bool, relation: Option<(String, String)> },
}

pub enum AcceptStepView {
    Duplicate { draft_id: Seq<char>, target_id: Seq<char> },
    Promote { draft_id: Seq<char>, use_anchor: bool, relation: Option<(Seq<char>, Seq<char>)> },
}

impl View for AcceptStep {
    type V = AcceptStepView;

    open spec fn view(&self) -> AcceptStepView {
        match self {
            AcceptStep::Duplicate { draft_id, target_id } => AcceptStepView::Duplicate {
                draft_id: draft_id@,
                target_id: target_id@,
            },
            AcceptStep::Promote { draft_id, use_anchor, relation } => AcceptStepView::Promote {
                draft_id: draft_id@,
                use_anchor: *use_anchor,
                relation: match relation {
                    Some((t, k)) => Some((t@, k@)),
                    None => None,
                },
            },
        }
    }
}

pub open spec fn step_views(v: Seq<AcceptStep>) -> Seq<AcceptStepView> {
    v.map_values(|s: AcceptStep| s@)
}

/// The plan of an acceptance: one step per accepted draft, in order, and the
/// existing knowledge that duplicates add to, each once.
#[derive(Clone, Debug)]
pub struct AcceptPlan {
    pub steps: Vec<AcceptStep>,
    pub updated_knowledge_ids: Vec<String>,
}

/// The selected draft ids: trimmed, without empty ones, each once.
pub open spec fn selected_ids(ids: Seq<Seq<char>>) -> Seq<Seq<char>>
    decreases ids.len(),
{
    if ids.len() == 0 {
        Seq::empty()
    } else {
        let r = selected_ids(ids.drop_last());
        let v = trim(ids.last());
        if v.len() > 0 && !r.contains(v) {
            r.push(v)
        } else {
            r
        }
    }
}

/// The drafts whose id was selected, in order.
pub open spec fn selected_drafts(drafts: Seq<AcceptDraftView>, selected: Seq<Seq<char>>) -> Seq<
    AcceptDraftView,
>
    decreases drafts.len(),
{
    if drafts.len() == 0 {
        Seq::empty()
    } else {
        let r = selected_drafts(drafts.drop_last(), selected);
        if selected.contains(drafts.last().id) {
            r.push(drafts.last())
        } else {
            r
        }
    }
}

/// Some step makes a draft into formal knowledge.
pub open spec fn has_promotion(steps: Seq<AcceptStepView>) -> bool {
    exists|k: int| 0 <= k < steps.len() && #[trigger] steps[k] is Promote
}

/// The step of one draft; `use_anchor` holds while no earlier draft became
/// formal knowledge.
pub open spec fn accept_step(d: AcceptDraftView, use_anchor: bool) -> Result<
    AcceptStepView,
    Seq<char>,
> {
    if d.classification == "duplicate"@ {
        match d.related {
            Some(t) => Ok(AcceptStepView::Duplicate { draft_id: d.id, target_id: t }),
            None => Err("duplicate draft is missing related knowledge"@),
        }
    } else if d.classification == "supplement"@ || d.classification == "conflict"@ {
        match d.related {
            Some(t) => Ok(
                AcceptStepView::Promote {
                    draft_id: d.id,
                    use_anchor,
                    relation: Some(
                        (
                            t,
                            if d.classification == "conflict"@ {
                                "contradicts"@
                            } else {
                                "extends"@
                            },
                        ),
                    ),
                },
            ),
            None => Err(d.classification + " draft is missing related knowledge"@),
        }
    } else {
        Ok(AcceptStepView::Promote { draft_id: d.id, use_anchor, relation: None })
    }
}

/// The steps of the accepted drafts in order, or the first draft's error.
pub open spec fn accept_steps(ds: Seq<AcceptDraftView>) -> Result<Seq<AcceptStepView>, Seq<char>>
    decreases ds.len(),
{
    if ds.len() == 0 {
        Ok(Seq::empty())
    } else {
        match accept_steps(ds.drop_last()) {
            Err(e) => Err(e),
            Ok(s) => match accept_step(ds.last(), !has_promotion(s)) {
                Err(e) => Err(e),
                Ok(st) => Ok(s.push(st)),
            },
        }
    }
}

/// The targets of the duplicate steps, each once, in order.
pub open spec fn duplicate_targets(steps: Seq<AcceptStepView>) -> Seq<Seq<char>>
    decreases steps.len(),
{
    if steps.len() == 0 {
        Seq::empty()
    } else {
        let t = duplicate_targets(steps.drop_last());
        match steps.last() {
            AcceptStepView::Duplicate { target_id, .. } => if t.contains(target_id) {
                t
            } else {
                t.push(target_id)
            },
            _ => t,
        }
    }
}

/// Accepting the selected drafts of an inbox item: the item must be ready,
/// every selected id must be one of its drafts, and at least one must be
/// selected.
pub open spec fn accept_plan(
    status: Seq<char>,
    drafts: Seq<AcceptDraftView>,
    selected: Seq<Seq<char>>,
) -> Result<(Seq<AcceptStepView>, Seq<Seq<char>>), Seq<char>> {
    let accepted = selected_drafts(drafts, selected);
    if status != "ready"@ {
        Err("inbox item is not ready for acceptance"@)
    } else if accepted.len() != selected.len() {
        Err("one or more selected drafts do not belong to this inbox item"@)
    } else if accepted.len() == 0 {
        Err("no drafts selected for acceptance"@)
    } else {
        match accept_steps(accepted) {
            Err(e) => Err(e),
            Ok(s) => Ok((s, duplicate_targets(s))),
        }
    }
}

/// The draft a step is for.
pub open spec fn step_draft_id(s: AcceptStepView) -> Seq<char> {
    match s {
        AcceptStepView::Duplicate { draft_id, .. } => draft_id,
        AcceptStepView::Promote { draft_id, .. } => draft_id,
    }
}

/// When acceptance succeeds, each accepted draft has one step, in order; a
/// duplicate draft adds to existing knowledge and every other draft becomes
/// formal knowledge; and the first draft that becomes formal knowledge, and
/// only that one, takes the inbox's anchor.
#[verifier::spinoff_prover]
pub proof fn lemma_accept_steps_shape(ds: Seq<AcceptDraftView>, steps: Seq<AcceptStepView>)
    requires
        accept_steps(ds) == Ok::<Seq<AcceptStepView>, Seq<char>>(steps),
    ensures
        steps.len() == ds.len(),
        forall|k: int| 0 <= k < steps.len() ==> step_draft_id(#[trigger] steps[k]) == ds[k].id,
        forall|k: int|
            0 <= k < steps.len() ==> ((#[trigger] steps[k] is Duplicate) <==> ds[k].classification
                == "duplicate"@),
        forall|k: int|
            0 <= k < steps.len() && (#[trigger] steps[k] is Promote) ==> (steps[k]->use_anchor
                <==> !has_promotion(steps.take(k))),
    decreases ds.len(),
{
    if ds.len() > 0 {
        let prev = accept_steps(ds.drop_last());
        let s = prev->Ok_0;
        lemma_accept_steps_shape(ds.drop_last(), s);
        let st = accept_step(ds.last(), !has_promotion(s))->Ok_0;
        assert(steps == s.push(st));
        let last = s.len() as int;
        assert(steps.take(last) =~= s);
        assert forall|k: int| 0 <= k < last implies steps[k] == s[k] && ds.drop_last()[k] == ds[k]
            && steps.take(k) == s.take(k) by {
            assert(steps.take(k) =~= s.take(k));
        }
    }
}

/// The selected draft ids (see `selected_ids`); none is an error.
pub fn selected_draft_ids(draft_ids: Vec<String>) -> (r: Result<Vec<String>, String>)
    ensures
        match r {
            Ok(v) => string_views(v@) == selected_ids(string_views(draft_ids@))
                && selected_ids(string_views(draft_ids@)).len() > 0,
            Err(e) => e@ == "select at least one draft to accept"@ && selected_ids(
                string_views(draft_ids@),
            ).len() == 0,
        },
{
    let ghost ids = string_views(draft_ids@);
    let mut r: Vec<String> = Vec::new();
    let n = draft_ids.len();
    let mut i: usize = 0;
    assert(ids.take(0) =~= Seq::<Seq<char>>::empty());
    while i < n
        invariant
            n == draft_ids@.len(),
            ids == string_views(draft_ids@),
            i <= n,
            string_views(r@) == selected_ids(ids.take(i as int)),
        decreases n - i,
    {
        assert(ids.take(i + 1).drop_last() =~= ids.take(i as int));
        assert(ids.take(i + 1).last() == draft_ids@[i as int]@);
        let v = trim_str(draft_ids[i].as_str());
        if char_count(v.as_str()) > 0 && !contains_string(&r, &v) {
            r.push(v);
            assert(string_views(r@) =~= selected_ids(ids.take(i as int)).push(v@));
        }
        i = i + 1;
    }
    assert(ids.take(n as int) =~= ids);
    if r.len() == 0 {
        Err("select at least one draft to accept".to_string())
    } else {
        Ok(r)
    }
}

fn clone_accept_draft(d: &AcceptDraft) -> (r: AcceptDraft)
    ensures
        r@ == d@,
{
    AcceptDraft {
        id: d.id.clone(),
        classification: d.classification.clone(),
        related_knowledge_id: match &d.related_knowledge_id {
            Some(t) => Some(t.clone()),
            None => None,
        },
    }
}

fn select_drafts(drafts: &Vec<AcceptDraft>, selected: &Vec<String>) -> (r: Vec<AcceptDraft>)
    ensures
        draft_views(r@) == selected_drafts(draft_views(drafts@), string_views(selected@)),
{
    let ghost ds = draft_views(drafts@);
    let ghost sel = string_views(selected@);
    let mut r: Vec<AcceptDraft> = Vec::new();
    let n = drafts.len();
    let mut i: usize = 0;
    assert(ds.take(0) =~= Seq::<AcceptDraftView>::empty());
    assert(draft_views(r@) =~= Seq::<AcceptDraftView>::empty());
    while i < n
        invariant
            n == drafts@.len(),
            ds == draft_views(drafts@),
            sel == string_views(selected@),
            i <= n,
            draft_views(r@) == selected_drafts(ds.take(i as int), sel),
        decreases n - i,
    {
        assert(ds.take(i + 1).drop_last() =~= ds.take(i as int));
        assert(ds.take(i + 1).last() == drafts@[i as int]@);
        if contains_string(selected, &drafts[i].id) {
            let d = clone_accept_draft(&drafts[i]);
            r.push(d);
            assert(draft_views(r@) =~= selected_drafts(ds.take(i as int), sel).push(d@));
        }
        i = i + 1;
    }
    assert(ds.take(n as int) =~= ds);
    r
}

fn step_for(d: &AcceptDraft, use_anchor: bool) -> (r: Result<AcceptStep, String>)
    ensures
        match r {
            Ok(s) => accept_step(d@, use_anchor) == Ok::<AcceptStepView, Seq<char>>(s@),
            Err(e) => accept_step(d@, use_anchor) == Err::<AcceptStepView, Seq<char>>(e@),
        },
{
    let c = d.classification.as_str();
    if str_eq(c, "duplicate") {
        match &d.related_knowledge_id {
            Some(t) => Ok(AcceptStep::Duplicate { draft_id: d.id.clone(), target_id: t.clone() }),
            None => Err("duplicate draft is missing related knowledge".to_string()),
        }
    } else if str_eq(c, "supplement") || str_eq(c, "conflict") {
        match &d.related_knowledge_id {
            Some(t) => {
                let kind = if str_eq(c, "conflict") {
                    "contradicts".to_string()
                } else {
                    "extends".to_string()
                };
                Ok(
                    AcceptStep::Promote {
                        draft_id: d.id.clone(),
                        use_anchor,
                        relation: Some((t.clone(), kind)),
                    },
                )
            },
            None => {
                let mut message = d.classification.clone();
                crate::text::push_str(&mut message, " draft is missing related knowledge");
                Err(message)
            },
        }
    } else {
        Ok(AcceptStep::Promote { draft_id: d.id.clone(), use_anchor, relation: None })
    }
}

proof fn lemma_steps_error_stays(ds: Seq<AcceptDraftView>, i: int)
    requires
        0 <= i <= ds.len(),
        accept_steps(ds.take(i)) is Err,
    ensures
        accept_steps(ds) == accept_steps(ds.take(i)),
    decreases ds.len() - i,
{
    if i < ds.len() {
        assert(ds.take(i + 1).drop_last() =~= ds.take(i));
        lemma_steps_error_stays(ds, i + 1);
    } else {
        assert(ds.take(i) =~= ds);
    }
}

/// The plan of accepting the selected drafts of an inbox item with the
/// given status (see `accept_plan`); `selected` holds each id once.
#[verifier::spinoff_prover]
pub fn plan_acceptance(status: &str, drafts: &Vec<AcceptDraft>, selected: &Vec<String>) -> (r:
    Result<AcceptPlan, String>)
    ensures
        match r {
            Ok(p) => accept_plan(status@, draft_views(drafts@), string_views(selected@)) == Ok::<
                (Seq<AcceptStepView>, Seq<Seq<char>>),
                Seq<char>,
            >((step_views(p.steps@), string_views(p.updated_knowledge_ids@))),
            Err(e) => accept_plan(status@, draft_views(drafts@), string_views(selected@)) == Err::<
                (Seq<AcceptStepView>, Seq<Seq<char>>),
                Seq<char>,
            >(e@),
        },
{
    let accepted = select_drafts(drafts, selected);
    let ghost acc = draft_views(accepted@);
    assert(acc.len() == accepted@.len());
    assert(string_views(selected@).len() == selected@.len());
    if !str_eq(status, "ready") {
        return Err("inbox item is not ready for acceptance".to_string());
    }
    if accepted.len() != selected.len() {
        return Err("one or more selected drafts do not belong to this inbox item".to_string());
    }
    if accepted.len() == 0 {
        return Err("no drafts selected for acceptance".to_string());
    }
    let mut steps: Vec<AcceptStep> = Vec::new();
    let mut updated: Vec<String> = Vec::new();
    let mut anchor_used = false;
    let n = accepted.len();
    let mut i: usize = 0;
    assert(acc.take(0) =~= Seq::<AcceptDraftView>::empty());
    assert(step_views(steps@) =~= Seq::<AcceptStepView>::empty());
    assert(string_views(updated@) =~= Seq::<Seq<char>>::empty());
    while i < n
        invariant
            n == accepted@.len(),
            acc == draft_views(accepted@),
            acc == selected_drafts(draft_views(drafts@), string_views(selected@)),
            status@ == "ready"@,
            acc.len() == string_views(selected@).len(),
            acc.len() > 0,
            i <= n,
            accept_steps(acc.take(i as int)) == Ok::<Seq<AcceptStepView>, Seq<char>>(
                step_views(steps@),
            ),
            string_views(updated@) == duplicate_targets(step_views(steps@)),
            anchor_used == has_promotion(step_views(steps@)),
        decreases n - i,
    {
        let ghost before = step_views(steps@);
        assert(acc.take(i + 1).drop_last() =~= acc.take(i as int));
        assert(acc.take(i + 1).last() == accepted@[i as int]@);
        match step_for(&accepted[i], !anchor_used) {
            Err(e) => {
                proof {
                    lemma_steps_error_stays(acc, i + 1);
                }
                return Err(e);
            },
            Ok(st) => {
                let ghost sv = st@;
                match &st {
                    AcceptStep::Duplicate { target_id, .. } => {
                        if !contains_string(&updated, target_id) {
                            updated.push(target_id.clone());
                            assert(string_views(updated@) =~= duplicate_targets(before).push(
                                target_id@,
                            ));
                        }
                    },
                    AcceptStep::Promote { .. } => {
                        anchor_used = true;
                    },
                }
                steps.push(st);
                assert(step_views(steps@) =~= before.push(sv));
                assert(step_views(steps@).drop_last() =~= before);
                assert(step_views(steps@)[before.len() as int] == sv);
                assert(has_promotion(step_views(steps@)) == (has_promotion(before)
                    || sv is Promote)) by {
                    if has_promotion(before) {
                        let k = choose|k: int| 0 <= k < before.len() && #[trigger] before[k] is Promote;
                        assert(step_views(steps@)[k] == before[k]);
                    }
                    if has_promotion(step_views(steps@)) && !(sv is Promote) {
                        let k = choose|k: int|
                            0 <= k < step_views(steps@).len() && #[trigger] step_views(
                                steps@,
                            )[k] is Promote;
                        assert(before[k] == step_views(steps@)[k]);
                    }
                }
            },
        }
        i = i + 1;
    }
    assert(acc.take(n as int) =~= acc);
    Ok(AcceptPlan { steps, updated_knowledge_ids: updated })
}


/// An inbox id, trimmed; a blank one is an error.
pub fn required_inbox_id(value: &str) -> (r: Result<String, String>)
    ensures
        match r {
            Ok(t) => t@ == trim(value@) && t@.len() > 0,
            Err(e) => e@ == "inbox id is empty"@ && trim(value@).len() == 0,
        },
{
    let t = trim_str(value);
    if char_count(t.as_str()) == 0 {
        Err("inbox id is empty".to_string())
    } else {
        Ok(t)
    }
}

/// The status and stage an ignored inbox item returns to: ready for review
/// while drafts are pending, else captured.
pub fn restored_state(pending_drafts: i64) -> (r: (&'static str, &'static str))
    ensures
        if pending_drafts > 0 {
            r.0@ == "ready"@ && r.1@ == "awaiting_review"@
        } else {
            r.0@ == "captured"@ && r.1@ == "captured"@
        },
{
    if pending_drafts > 0 {
        ("ready", "awaiting_review")
    } else {
        ("captured", "captured")
    }
}


/// The selected draft ids hold each id once, none of them blank.
pub proof fn lemma_selected_ids_distinct(ids: Seq<Seq<char>>)
    ensures
        selected_ids(ids).no_duplicates(),
        forall|k: int| 0 <= k < selected_ids(ids).len() ==> #[trigger] selected_ids(ids)[k].len() > 0,
    decreases ids.len(),
{
    if ids.len() > 0 {
        lemma_selected_ids_distinct(ids.drop_last());
    }
}


proof fn lemma_selected_drafts_selected(drafts: Seq<AcceptDraftView>, selected: Seq<Seq<char>>)
    ensures
        forall|k: int|
            0 <= k < selected_drafts(drafts, selected).len() ==> selected.contains(
                #[trigger] selected_drafts(drafts, selected)[k].id,
            ),
    decreases drafts.len(),
{
    if drafts.len() > 0 {
        lemma_selected_drafts_selected(drafts.drop_last(), selected);
    }
}

/// Accepting an inbox item touches only the selected drafts: every step of
/// a successful plan is for a selected draft, one step per selected id.
pub proof fn lemma_acceptance_touches_only_selected(
    status: Seq<char>,
    drafts: Seq<AcceptDraftView>,
    selected: Seq<Seq<char>>,
    steps: Seq<AcceptStepView>,
    updated: Seq<Seq<char>>,
)
    requires
        accept_plan(status, drafts, selected) == Ok::<
            (Seq<AcceptStepView>, Seq<Seq<char>>),
            Seq<char>,
        >((steps, updated)),
    ensures
        steps.len() == selected.len(),
        forall|k: int| 0 <= k < steps.len() ==> selected.contains(step_draft_id(#[trigger] steps[k])),
{
    let accepted = selected_drafts(drafts, selected);
    lemma_accept_steps_shape(accepted, steps);
    lemma_selected_drafts_selected(drafts, selected);
    assert forall|k: int| 0 <= k < steps.len() implies selected.contains(step_draft_id(#[trigger] steps[k])) by {
        assert(step_draft_id(steps[k]) == accepted[k].id);
    }
}

} // verus!
