//! Selecting candidate pairs of knowledge for curation, the local search
//! expression that finds them, the checks of the curator's decisions, and how
//! a candidate is decided.
use vstd::prelude::*;
use crate::search::{
    eq_ignore_ascii_case, fts_terms, join_fts_terms, lemma_text_le_antisymmetric,
    lemma_text_le_total, str_le, text_le, trim_punct, trim_punctuation,
};
use crate::librarian::ConfidenceLevel;
use crate::text::{
    ascii_lower, char_count, char_vec_views, chars_of, clone_strings, contains_string,
    push_char, push_str, split_words, str_eq, string_views, take_chars, trim, trim_chars,
    trim_take_str, trim_str, join, words,
};

verus! {

/// A piece of knowledge as the curation judge sees it.
#[derive(Clone, Debug)]
pub struct CurationKnowledge {
    pub id: String,
    pub claim: String,
    pub concepts: Vec<String>,
    pub quality: String,
}

/// Two pieces of knowledge to judge together, the smaller id first.
#[derive(Clone, Debug)]
pub struct CurationPair {
    pub left: CurationKnowledge,
    pub right: CurationKnowledge,
}

pub struct CurationKnowledgeView {
    pub id: Seq<char>,
    pub claim: Seq<char>,
    pub concepts: Seq<Seq<char>>,
    pub quality: Seq<char>,
}

impl View for CurationKnowledge {
    type V = CurationKnowledgeView;

    open spec fn view(&self) -> CurationKnowledgeView {
        CurationKnowledgeView {
            id: self.id@,
            claim: self.claim@,
            concepts: string_views(self.concepts@),
            quality: self.quality@,
        }
    }
}

pub open spec fn pair_views(v: Seq<CurationPair>) -> Seq<(CurationKnowledgeView, CurationKnowledgeView)> {
    v.map_values(|p: CurationPair| (p.left@, p.right@))
}

/// The two ids, the smaller first.
pub open spec fn ordered_pair(a: Seq<char>, b: Seq<char>) -> (Seq<char>, Seq<char>) {
    if text_le(a, b) {
        (a, b)
    } else {
        (b, a)
    }
}

/// The key of an unordered pair of ids: the smaller id, the unit separator
/// `U+001F`, the larger id.
pub open spec fn pair_key_of(a: Seq<char>, b: Seq<char>) -> Seq<char> {
    let (x, y) = ordered_pair(a, b);
    x + seq!['\u{1f}'] + y
}

/// The trimmed concepts, at most four, skipping blank ones and ones equal to
/// an earlier term up to ASCII case.
pub open spec fn concept_terms(concepts: Seq<Seq<char>>) -> Seq<Seq<char>>
    decreases concepts.len(),
{
    if concepts.len() == 0 {
        Seq::empty()
    } else {
        let t = concept_terms(concepts.drop_last());
        let v = trim(concepts.last());
        if t.len() < 4 && v.len() > 0 && !(exists|k: int|
            0 <= k < t.len() && ascii_lower(#[trigger] t[k]) == ascii_lower(v)) {
            t.push(v)
        } else {
            t
        }
    }
}

/// The first four words of a claim, without ASCII punctuation at their ends,
/// that keep at least two characters.
pub open spec fn claim_terms(ws: Seq<Seq<char>>) -> Seq<Seq<char>>
    decreases ws.len(),
{
    if ws.len() == 0 {
        Seq::empty()
    } else {
        let t = claim_terms(ws.drop_last());
        let v = trim_punct(ws.last());
        if t.len() < 4 && v.len() >= 2 {
            t.push(v)
        } else {
            t
        }
    }
}

/// The FTS5 expression that finds candidates for a piece of knowledge: its
/// concepts, or else words of its claim, as prefix terms joined by `OR`.
pub open spec fn candidate_expression(k: CurationKnowledgeView) -> Seq<char> {
    let from_concepts = concept_terms(k.concepts);
    let terms = if from_concepts.len() > 0 {
        from_concepts
    } else {
        claim_terms(words(k.claim))
    };
    join(fts_terms(terms), " OR "@)
}

/// The pair is the same whichever side is named first.
pub proof fn lemma_pair_key_symmetric(a: Seq<char>, b: Seq<char>)
    ensures
        pair_key_of(a, b) == pair_key_of(b, a),
        ordered_pair(a, b) == ordered_pair(b, a),
{
    lemma_text_le_total(a, b);
    if text_le(a, b) && text_le(b, a) {
        lemma_text_le_antisymmetric(a, b);
    }
}

/// A copy of a piece of knowledge.
pub fn clone_knowledge(k: &CurationKnowledge) -> (r: CurationKnowledge)
    ensures
        r@ == k@,
{
    CurationKnowledge {
        id: k.id.clone(),
        claim: k.claim.clone(),
        concepts: clone_strings(&k.concepts),
        quality: k.quality.clone(),
    }
}

/// The two ids, the smaller first.
pub fn canonical_pair(left: &str, right: &str) -> (r: (String, String))
    ensures
        (r.0@, r.1@) == ordered_pair(left@, right@),
{
    if str_le(left, right) {
        (left.to_owned(), right.to_owned())
    } else {
        (right.to_owned(), left.to_owned())
    }
}

/// The key of an unordered pair of ids (see `pair_key_of`).
pub fn pair_key(left: &str, right: &str) -> (r: String)
    ensures
        r@ == pair_key_of(left@, right@),
{
    let (a, b) = canonical_pair(left, right);
    let mut key = a;
    push_char(&mut key, '\u{1f}');
    push_str(&mut key, b.as_str());
    key
}

/// Adds the pair of two different pieces of knowledge, smaller id first,
/// unless that pair was seen before; records it as seen.
pub fn add_pair(
    left: &CurationKnowledge,
    right: &CurationKnowledge,
    seen: &mut Vec<String>,
    pairs: &mut Vec<CurationPair>,
)
    ensures
        ({
            let key = pair_key_of(left.id@, right.id@);
            if left.id@ == right.id@ || string_views(old(seen)@).contains(key) {
                string_views(final(seen)@) == string_views(old(seen)@) && pair_views(final(pairs)@)
                    == pair_views(old(pairs)@)
            } else {
                string_views(final(seen)@) == string_views(old(seen)@).push(key) && pair_views(
                    final(pairs)@,
                ) == pair_views(old(pairs)@).push(
                    if text_le(left.id@, right.id@) {
                        (left@, right@)
                    } else {
                        (right@, left@)
                    },
                )
            }
        }),
{
    if left.id == right.id {
        return;
    }
    let key = pair_key(left.id.as_str(), right.id.as_str());
    if contains_string(seen, &key) {
        return;
    }
    seen.push(key);
    assert(string_views(seen@) =~= string_views(old(seen)@).push(seen@.last()@));
    let pair = if str_le(left.id.as_str(), right.id.as_str()) {
        CurationPair { left: clone_knowledge(left), right: clone_knowledge(right) }
    } else {
        CurationPair { left: clone_knowledge(right), right: clone_knowledge(left) }
    };
    pairs.push(pair);
    assert(pair_views(pairs@) =~= pair_views(old(pairs)@).push((pairs@.last().left@, pairs@.last().right@)));
}

pub(crate) fn contains_term_ignore_case(terms: &Vec<Vec<char>>, v: &Vec<char>) -> (r: bool)
    ensures
        r == exists|k: int|
            0 <= k < char_vec_views(terms@).len() && ascii_lower(
                #[trigger] char_vec_views(terms@)[k],
            ) == ascii_lower(v@),
{
    let n = terms.len();
    let mut i: usize = 0;
    while i < n
        invariant
            n == terms@.len(),
            i <= n,
            forall|k: int| 0 <= k < i ==> ascii_lower(terms@[k]@) != ascii_lower(v@),
        decreases n - i,
    {
        if eq_ignore_ascii_case(terms[i].as_slice(), v.as_slice()) {
            assert(char_vec_views(terms@)[i as int] == terms@[i as int]@);
            return true;
        }
        i = i + 1;
    }
    assert forall|k: int| 0 <= k < char_vec_views(terms@).len() implies ascii_lower(
        #[trigger] char_vec_views(terms@)[k],
    ) != ascii_lower(v@) by {
        assert(char_vec_views(terms@)[k] == terms@[k]@);
    }
    false
}

/// The FTS5 expression that finds curation candidates for a piece of
/// knowledge (see `candidate_expression`).
pub fn candidate_fts_expression(knowledge: &CurationKnowledge) -> (r: String)
    ensures
        r@ == candidate_expression(knowledge@),
{
    let ghost cs = string_views(knowledge.concepts@);
    let mut terms: Vec<Vec<char>> = Vec::new();
    let n = knowledge.concepts.len();
    let mut i: usize = 0;
    assert(cs.take(0) =~= Seq::<Seq<char>>::empty());
    assert(char_vec_views(terms@) =~= Seq::<Seq<char>>::empty());
    while i < n
        invariant
            n == knowledge.concepts@.len(),
            cs == string_views(knowledge.concepts@),
            i <= n,
            char_vec_views(terms@) == concept_terms(cs.take(i as int)),
        decreases n - i,
    {
        proof {
            let post = cs.take(i + 1);
            assert(post.drop_last() =~= cs.take(i as int));
            assert(post.last() == knowledge.concepts@[i as int]@);
        }
        if terms.len() < 4 {
            let cv = chars_of(knowledge.concepts[i].as_str());
            let v = trim_chars(cv.as_slice());
            if v.len() > 0 && !contains_term_ignore_case(&terms, &v) {
                terms.push(v);
                assert(char_vec_views(terms@) =~= char_vec_views(terms@.drop_last()).push(
                    terms@.last()@,
                ));
            }
        }
        i = i + 1;
    }
    assert(cs.take(n as int) =~= cs);
    if terms.len() == 0 {
        let claim = chars_of(knowledge.claim.as_str());
        let ws = split_words(claim.as_slice());
        let ghost wv = char_vec_views(ws@);
        let m = ws.len();
        let mut j: usize = 0;
        assert(wv.take(0) =~= Seq::<Seq<char>>::empty());
        while j < m
            invariant
                m == ws@.len(),
                wv == char_vec_views(ws@),
                wv == words(knowledge.claim@),
                j <= m,
                char_vec_views(terms@) == claim_terms(wv.take(j as int)),
            decreases m - j,
        {
            proof {
                let post = wv.take(j + 1);
                assert(post.drop_last() =~= wv.take(j as int));
                assert(post.last() == ws@[j as int]@);
            }
            if terms.len() < 4 {
                let t = trim_punctuation(ws[j].as_slice());
                if t.len() >= 2 {
                    terms.push(t);
                    assert(char_vec_views(terms@) =~= char_vec_views(terms@.drop_last()).push(
                        terms@.last()@,
                    ));
                }
            }
            j = j + 1;
        }
        assert(wv.take(m as int) =~= wv);
    }
    join_fts_terms(&terms, " OR ")
}

/// An id, trimmed; an error naming the id when it is blank.
pub fn required_id(value: &str, label: &str) -> (r: Result<String, String>)
    ensures
        match r {
            Ok(t) => trim(value@).len() > 0 && t@ == trim(value@),
            Err(e) => trim(value@).len() == 0 && e@ == label@ + " id is empty"@,
        },
{
    let t = trim_str(value);
    if char_count(t.as_str()) == 0 {
        let mut message = label.to_owned();
        push_str(&mut message, " id is empty");
        Err(message)
    } else {
        Ok(t)
    }
}

/// The trimmed text, cut to `max_chars` characters.
pub fn bounded_text(value: &str, max_chars: usize) -> (r: String)
    ensures
        r@ == take_chars(trim(value@), max_chars as int),
{
    trim_take_str(value, max_chars)
}


// ---------------------------------------------------------------------------
// Validation of the curation judge's decisions
// ---------------------------------------------------------------------------

/// The relation types a `related` decision may carry.
pub const RELATED_RELATION_TYPES: [&'static str; 6] = [
    "related_to",
    "supports",
    "example_of",
    "prerequisite_of",
    "derived_from",
    "extends",
];

/// A decision of the curation judge on one pair, its confidence graded by
/// the caller.
#[derive(Clone, Debug)]
pub struct CurationDecisionInput {
    pub left_id: String,
    pub right_id: String,
    pub classification: String,
    pub relation_type: Option<String>,
    pub rationale: String,
    pub confidence: ConfidenceLevel,
}

/// A decision that is kept: its position in the input, the pair with the
/// smaller id first, and the normalized judgement.
#[derive(Clone, Debug)]
pub struct ValidatedDecision {
    pub index: usize,
    pub left_id: String,
    pub right_id: String,
    pub classification: String,
    pub relation_type: Option<String>,
    pub rationale: String,
}

pub struct DecisionView {
    pub index: int,
    pub left_id: Seq<char>,
    pub right_id: Seq<char>,
    pub classification: Seq<char>,
    pub relation_type: Option<Seq<char>>,
    pub rationale: Seq<char>,
}

/// The text of an optional string.
pub open spec fn opt_view(o: Option<String>) -> Option<Seq<char>> {
    match o {
        Some(s) => Some(s@),
        None => None,
    }
}

impl View for ValidatedDecision {
    type V = DecisionView;

    open spec fn view(&self) -> DecisionView {
        DecisionView {
            index: self.index as int,
            left_id: self.left_id@,
            right_id: self.right_id@,
            classification: self.classification@,
            relation_type: opt_view(self.relation_type),
            rationale: self.rationale@,
        }
    }
}

pub open spec fn decision_views(v: Seq<ValidatedDecision>) -> Seq<DecisionView> {
    v.map_values(|d: ValidatedDecision| d@)
}

/// The keys of the supplied pairs.
pub open spec fn pair_keys(pairs: Seq<CurationPair>) -> Seq<Seq<char>> {
    pairs.map_values(|p: CurationPair| pair_key_of(p.left.id@, p.right.id@))
}

/// The relation types a `related` decision may carry, as a predicate.
pub open spec fn is_related_type(t: Seq<char>) -> bool {
    t == "related_to"@ || t == "supports"@ || t == "example_of"@ || t == "prerequisite_of"@ || t
        == "derived_from"@ || t == "extends"@
}

/// The relation a decision carries: none for a duplicate, `contradicts` for
/// a conflict, the trimmed, lowercased type (`related_to` when absent) for a
/// related pair, which must be a related type.
pub open spec fn decision_relation(classification: Seq<char>, relation_type: Option<String>) -> Result<
    Option<Seq<char>>,
    Seq<char>,
> {
    if classification == "duplicate"@ {
        Ok(None)
    } else if classification == "conflict"@ {
        Ok(Some("contradicts"@))
    } else if classification == "related"@ {
        let rt = ascii_lower(
            trim(
                match relation_type {
                    Some(s) => s@,
                    None => "related_to"@,
                },
            ),
        );
        if is_related_type(rt) {
            Ok(Some(rt))
        } else {
            Err("curation returned an unsupported related relation type"@)
        }
    } else {
        Err("curation returned an unsupported classification"@)
    }
}

/// The decisions checked in turn. Each names a supplied pair by its trimmed
/// ids or the whole output is rejected; a later decision on a pair already
/// seen is dropped; then the confidence must be in range, the
/// classification known; `new` and low-confidence decisions are dropped.
/// The state is the pair keys seen and the decisions kept.
pub open spec fn checked_decisions(ds: Seq<CurationDecisionInput>, allowed: Seq<Seq<char>>) -> Result<
    (Seq<Seq<char>>, Seq<DecisionView>),
    Seq<char>,
>
    decreases ds.len(),
{
    if ds.len() == 0 {
        Ok((Seq::empty(), Seq::empty()))
    } else {
        match checked_decisions(ds.drop_last(), allowed) {
            Err(e) => Err(e),
            Ok((seen, kept)) => {
                let d = ds.last();
                let l = trim(d.left_id@);
                let r = trim(d.right_id@);
                let key = pair_key_of(l, r);
                if !allowed.contains(key) {
                    Err("curation returned an unknown knowledge pair"@)
                } else if seen.contains(key) {
                    Ok((seen, kept))
                } else if d.confidence is OutOfRange {
                    Err("curation confidence must be between 0 and 1"@)
                } else {
                    let c = ascii_lower(trim(d.classification@));
                    if c == "new"@ {
                        Ok((seen.push(key), kept))
                    } else {
                        match decision_relation(c, d.relation_type) {
                            Err(e) => Err(e),
                            Ok(rel) => if d.confidence is Low {
                                Ok((seen.push(key), kept))
                            } else {
                                Ok(
                                    (
                                        seen.push(key),
                                        kept.push(
                                            DecisionView {
                                                index: ds.len() - 1,
                                                left_id: ordered_pair(l, r).0,
                                                right_id: ordered_pair(l, r).1,
                                                classification: c,
                                                relation_type: rel,
                                                rationale: take_chars(trim(d.rationale@), 700),
                                            },
                                        ),
                                    ),
                                )
                            },
                        }
                    }
                }
            },
        }
    }
}

/// The judge's decisions validated against the supplied pairs: no more
/// decisions than pairs, then each checked in turn (see
/// `checked_decisions`).
pub open spec fn validated_decisions(ds: Seq<CurationDecisionInput>, pairs: Seq<CurationPair>) -> Result<
    Seq<DecisionView>,
    Seq<char>,
> {
    if ds.len() > pairs.len() {
        Err("curation returned more decisions than supplied pairs"@)
    } else {
        match checked_decisions(ds, pair_keys(pairs)) {
            Err(e) => Err(e),
            Ok((_, kept)) => Ok(kept),
        }
    }
}

/// A rejected decision rejects every longer list that starts with it.
pub proof fn lemma_checked_decisions_err_prefix(
    ds: Seq<CurationDecisionInput>,
    allowed: Seq<Seq<char>>,
    i: int,
)
    requires
        0 <= i <= ds.len(),
        checked_decisions(ds.take(i), allowed) is Err,
    ensures
        checked_decisions(ds, allowed) == checked_decisions(ds.take(i), allowed),
    decreases ds.len() - i,
{
    if i < ds.len() {
        assert(ds.take(i + 1).drop_last() =~= ds.take(i));
        lemma_checked_decisions_err_prefix(ds, allowed, i + 1);
    } else {
        assert(ds.take(i) =~= ds);
    }
}

/// The keys of the supplied pairs, in order.
fn supplied_pair_keys(pairs: &Vec<CurationPair>) -> (r: Vec<String>)
    ensures
        string_views(r@) == pair_keys(pairs@),
{
    let mut r: Vec<String> = Vec::new();
    let n = pairs.len();
    let mut i: usize = 0;
    while i < n
        invariant
            n == pairs@.len(),
            i <= n,
            r@.len() == i,
            string_views(r@) == pair_keys(pairs@).take(i as int),
        decreases n - i,
    {
        r.push(pair_key(pairs[i].left.id.as_str(), pairs[i].right.id.as_str()));
        assert(string_views(r@) =~= pair_keys(pairs@).take(i + 1));
        i = i + 1;
    }
    assert(pair_keys(pairs@).take(n as int) =~= pair_keys(pairs@));
    r
}

/// The relation a decision carries (see `decision_relation`).
fn relation_of(classification: &str, relation_type: &Option<String>) -> (r: Result<
    Option<String>,
    String,
>)
    ensures
        match r {
            Ok(o) => decision_relation(classification@, *relation_type) == Ok::<
                Option<Seq<char>>,
                Seq<char>,
            >(opt_view(o)),
            Err(e) => decision_relation(classification@, *relation_type) == Err::<
                Option<Seq<char>>,
                Seq<char>,
            >(e@),
        },
{
    if str_eq(classification, "duplicate") {
        Ok(None)
    } else if str_eq(classification, "conflict") {
        Ok(Some("contradicts".to_string()))
    } else if str_eq(classification, "related") {
        let given: &str = match relation_type {
            Some(s) => s.as_str(),
            None => "related_to",
        };
        let trimmed = trim_str(given);
        let rt = crate::text::ascii_lowercase(trimmed.as_str());
        let s = rt.as_str();
        if str_eq(s, "related_to") || str_eq(s, "supports") || str_eq(s, "example_of") || str_eq(
            s,
            "prerequisite_of",
        ) || str_eq(s, "derived_from") || str_eq(s, "extends") {
            Ok(Some(rt))
        } else {
            Err("curation returned an unsupported related relation type".to_string())
        }
    } else {
        Err("curation returned an unsupported classification".to_string())
    }
}

/// Validates the curation judge's decisions against the supplied pairs (see
/// `validated_decisions`). The caller grades each confidence; each kept
/// decision carries its position so that the caller can carry its
/// confidence over.
pub fn validate_decisions(decisions: &Vec<CurationDecisionInput>, pairs: &Vec<CurationPair>) -> (r:
    Result<Vec<ValidatedDecision>, String>)
    ensures
        match r {
            Ok(v) => validated_decisions(decisions@, pairs@) == Ok::<Seq<DecisionView>, Seq<char>>(
                decision_views(v@),
            ),
            Err(e) => validated_decisions(decisions@, pairs@) == Err::<
                Seq<DecisionView>,
                Seq<char>,
            >(e@),
        },
{
    if decisions.len() > pairs.len() {
        return Err("curation returned more decisions than supplied pairs".to_string());
    }
    let allowed = supplied_pair_keys(pairs);
    let ghost av = string_views(allowed@);
    let ghost ds = decisions@;
    let mut seen: Vec<String> = Vec::new();
    let mut kept: Vec<ValidatedDecision> = Vec::new();
    let n = decisions.len();
    let mut i: usize = 0;
    assert(ds.take(0) =~= Seq::<CurationDecisionInput>::empty());
    assert(decision_views(kept@) =~= Seq::<DecisionView>::empty());
    assert(string_views(seen@) =~= Seq::<Seq<char>>::empty());
    while i < n
        invariant
            n == ds.len(),
            ds == decisions@,
            n <= pairs@.len(),
            av == string_views(allowed@),
            av == pair_keys(pairs@),
            i <= n,
            checked_decisions(ds.take(i as int), av) == Ok::<
                (Seq<Seq<char>>, Seq<DecisionView>),
                Seq<char>,
            >((string_views(seen@), decision_views(kept@))),
        decreases n - i,
    {
        proof {
            let post = ds.take(i + 1);
            assert(post.drop_last() =~= ds.take(i as int));
            assert(post.last() == ds[i as int]);
        }
        let d = &decisions[i];
        let left = trim_str(d.left_id.as_str());
        let right = trim_str(d.right_id.as_str());
        let key = pair_key(left.as_str(), right.as_str());
        if !contains_string(&allowed, &key) {
            proof {
                lemma_checked_decisions_err_prefix(ds, av, i + 1);
            }
            return Err("curation returned an unknown knowledge pair".to_string());
        }
        if !contains_string(&seen, &key) {
            let ghost seen0 = string_views(seen@);
            seen.push(key);
            assert(string_views(seen@) =~= seen0.push(seen@.last()@));
            match d.confidence {
                ConfidenceLevel::OutOfRange => {
                    proof {
                        lemma_checked_decisions_err_prefix(ds, av, i + 1);
                    }
                    return Err("curation confidence must be between 0 and 1".to_string());
                },
                _ => {},
            }
            let trimmed = trim_str(d.classification.as_str());
            let classification = crate::text::ascii_lowercase(trimmed.as_str());
            if !str_eq(classification.as_str(), "new") {
                let relation_type = match relation_of(classification.as_str(), &d.relation_type) {
                    Err(e) => {
                        proof {
                            lemma_checked_decisions_err_prefix(ds, av, i + 1);
                        }
                        return Err(e);
                    },
                    Ok(o) => o,
                };
                match d.confidence {
                    ConfidenceLevel::Sufficient => {
                        let (l, r) = canonical_pair(left.as_str(), right.as_str());
                        let rationale = trim_take_str(d.rationale.as_str(), 700);
                        let ghost kept0 = decision_views(kept@);
                        kept.push(
                            ValidatedDecision {
                                index: i,
                                left_id: l,
                                right_id: r,
                                classification,
                                relation_type,
                                rationale,
                            },
                        );
                        assert(decision_views(kept@) =~= kept0.push(kept@.last()@));
                    },
                    _ => {},
                }
            }
        }
        i = i + 1;
    }
    assert(ds.take(n as int) =~= ds);
    Ok(kept)
}


/// The key of an ordered pair is the key of the pair.
pub proof fn lemma_ordered_pair_key(a: Seq<char>, b: Seq<char>)
    ensures
        text_le(ordered_pair(a, b).0, ordered_pair(a, b).1),
        pair_key_of(ordered_pair(a, b).0, ordered_pair(a, b).1) == pair_key_of(a, b),
{
    lemma_text_le_total(a, b);
    lemma_pair_key_symmetric(a, b);
}

/// Every kept decision is on a supplied pair, smaller id first, is not
/// `new`, and no two kept decisions are on the same pair.
pub proof fn lemma_checked_decisions_sound(ds: Seq<CurationDecisionInput>, allowed: Seq<Seq<char>>)
    ensures
        checked_decisions(ds, allowed) matches Ok((seen, kept)) ==> (forall|k: int|
            0 <= k < kept.len() ==> allowed.contains(
                pair_key_of((#[trigger] kept[k]).left_id, kept[k].right_id),
            ) && seen.contains(pair_key_of(kept[k].left_id, kept[k].right_id)) && text_le(
                kept[k].left_id,
                kept[k].right_id,
            ) && kept[k].classification != "new"@ && 0 <= kept[k].index < ds.len()) && (forall|
            a: int,
            b: int,
        |
            0 <= a < b < kept.len() ==> pair_key_of((#[trigger] kept[a]).left_id, kept[a].right_id)
                != pair_key_of((#[trigger] kept[b]).left_id, kept[b].right_id)),
    decreases ds.len(),
{
    if ds.len() > 0 {
        lemma_checked_decisions_sound(ds.drop_last(), allowed);
        if let Ok((seen, kept)) = checked_decisions(ds, allowed) {
            let (seen0, kept0) = checked_decisions(ds.drop_last(), allowed)->Ok_0;
            let d = ds.last();
            let l = trim(d.left_id@);
            let r = trim(d.right_id@);
            lemma_ordered_pair_key(l, r);
            if kept.len() > kept0.len() {
                assert(kept == kept0.push(kept.last()));
                assert(seen == seen0.push(pair_key_of(l, r)));
                assert forall|k: int| 0 <= k < kept.len() implies allowed.contains(
                    pair_key_of((#[trigger] kept[k]).left_id, kept[k].right_id),
                ) && seen.contains(pair_key_of(kept[k].left_id, kept[k].right_id)) && text_le(
                    kept[k].left_id,
                    kept[k].right_id,
                ) && kept[k].classification != "new"@ && 0 <= kept[k].index < ds.len() by {
                    if k < kept0.len() {
                        assert(kept[k] == kept0[k]);
                        let key = pair_key_of(kept[k].left_id, kept[k].right_id);
                        let j = choose|j: int| 0 <= j < seen0.len() && seen0[j] == key;
                        assert(seen[j] == key);
                    } else {
                        assert(seen[seen.len() - 1] == pair_key_of(l, r));
                    }
                }
                assert forall|a: int, b: int| 0 <= a < b < kept.len() implies pair_key_of(
                    (#[trigger] kept[a]).left_id,
                    kept[a].right_id,
                ) != pair_key_of((#[trigger] kept[b]).left_id, kept[b].right_id) by {
                    assert(kept[a] == kept0[a]);
                    if b < kept0.len() {
                        assert(kept[b] == kept0[b]);
                    } else {
                        assert(!seen0.contains(pair_key_of(l, r)));
                        assert(seen0.contains(pair_key_of(kept0[a].left_id, kept0[a].right_id)));
                    }
                }
            } else {
                assert(kept == kept0);
                assert forall|k: int| 0 <= k < kept.len() implies seen.contains(
                    pair_key_of((#[trigger] kept[k]).left_id, kept[k].right_id),
                ) by {
                    let key = pair_key_of(kept[k].left_id, kept[k].right_id);
                    let j = choose|j: int| 0 <= j < seen0.len() && seen0[j] == key;
                    if seen.len() > seen0.len() {
                        assert(seen == seen0.push(pair_key_of(l, r)));
                    } else {
                        assert(seen == seen0);
                    }
                    assert(seen[j] == key);
                }
            }
        }
    }
}


// ---------------------------------------------------------------------------
// Candidate pairs from retrieved neighbours
// ---------------------------------------------------------------------------

/// The most candidate pairs one curation run judges.
pub const MAX_PAIR_CANDIDATES: usize = 24;

/// The seen pair keys and the pairs collected so far.
pub type PairState = (Seq<Seq<char>>, Seq<(CurationKnowledgeView, CurationKnowledgeView)>);

/// The state after offering the pair of `left` and `right` (see `add_pair`).
pub open spec fn pair_step(left: CurationKnowledgeView, right: CurationKnowledgeView, state: PairState) -> PairState {
    let key = pair_key_of(left.id, right.id);
    if left.id == right.id || state.0.contains(key) {
        state
    } else {
        (
            state.0.push(key),
            state.1.push(
                if text_le(left.id, right.id) {
                    (left, right)
                } else {
                    (right, left)
                },
            ),
        )
    }
}

/// The last piece of knowledge with the id, as a map built from the list
/// keeps it.
pub open spec fn last_with_id(ks: Seq<CurationKnowledgeView>, id: Seq<char>) -> Option<
    CurationKnowledgeView,
>
    decreases ks.len(),
{
    if ks.len() == 0 {
        None
    } else if ks.last().id == id {
        Some(ks.last())
    } else {
        last_with_id(ks.drop_last(), id)
    }
}

pub open spec fn knowledge_views(ks: Seq<CurationKnowledge>) -> Seq<CurationKnowledgeView> {
    ks.map_values(|k: CurationKnowledge| k@)
}

/// Each retrieved neighbour of the library is paired with `item` in turn,
/// until the pairs reach the limit; the flag says whether they did.
pub open spec fn pairs_from(
    item: CurationKnowledgeView,
    ids: Seq<Seq<char>>,
    ks: Seq<CurationKnowledgeView>,
    state: PairState,
) -> (PairState, bool)
    decreases ids.len(),
{
    if ids.len() == 0 {
        (state, false)
    } else {
        let next = match last_with_id(ks, ids[0]) {
            Some(other) => pair_step(item, other, state),
            None => state,
        };
        if next.1.len() >= 24 {
            (next, true)
        } else {
            pairs_from(item, ids.drop_first(), ks, next)
        }
    }
}

/// The position of the last piece of knowledge with the id.
fn last_index_with_id(ks: &Vec<CurationKnowledge>, id: &str) -> (r: Option<usize>)
    ensures
        match r {
            Some(i) => i < ks@.len() && last_with_id(knowledge_views(ks@), id@) == Some(ks@[i as int]@),
            None => last_with_id(knowledge_views(ks@), id@) is None,
        },
{
    let ghost kv = knowledge_views(ks@);
    let mut i: usize = ks.len();
    assert(kv.take(i as int) =~= kv);
    while i > 0
        invariant
            i <= ks@.len(),
            kv == knowledge_views(ks@),
            last_with_id(kv, id@) == last_with_id(kv.take(i as int), id@),
        decreases i,
    {
        assert(kv.take(i as int).last() == ks@[i - 1]@);
        assert(kv.take(i as int).drop_last() =~= kv.take(i - 1));
        if str_eq(ks[i - 1].id.as_str(), id) {
            return Some(i - 1);
        }
        i = i - 1;
    }
    None
}

/// Pairs `item` with each retrieved neighbour in `other_ids` that is part
/// of the library given, until the pairs reach the limit (see
/// `pairs_from`); returns whether they did.
#[verifier::spinoff_prover]
pub fn add_candidate_pairs(
    item: &CurationKnowledge,
    other_ids: &Vec<String>,
    knowledge: &Vec<CurationKnowledge>,
    seen: &mut Vec<String>,
    pairs: &mut Vec<CurationPair>,
) -> (r: bool)
    ensures
        ({
            let (state, full) = pairs_from(
                item@,
                string_views(other_ids@),
                knowledge_views(knowledge@),
                (string_views(old(seen)@), pair_views(old(pairs)@)),
            );
            &&& string_views(final(seen)@) == state.0
            &&& pair_views(final(pairs)@) == state.1
            &&& r == full
        }),
{
    let ghost ids = string_views(other_ids@);
    let ghost kv = knowledge_views(knowledge@);
    let ghost goal = pairs_from(item@, ids, kv, (string_views(seen@), pair_views(pairs@)));
    let n = other_ids.len();
    let mut i: usize = 0;
    assert(ids.skip(0) =~= ids);
    while i < n
        invariant
            n == other_ids@.len(),
            ids == string_views(other_ids@),
            kv == knowledge_views(knowledge@),
            i <= n,
            goal == pairs_from(item@, ids.skip(i as int), kv, (string_views(seen@), pair_views(pairs@))),
            goal == pairs_from(
                item@,
                ids,
                kv,
                (string_views(old(seen)@), pair_views(old(pairs)@)),
            ),
        decreases n - i,
    {
        let ghost before: PairState = (string_views(seen@), pair_views(pairs@));
        assert(ids.skip(i as int)[0] == other_ids@[i as int]@);
        assert(ids.skip(i as int).drop_first() =~= ids.skip(i + 1));
        match last_index_with_id(knowledge, other_ids[i].as_str()) {
            Some(j) => {
                add_pair(item, &knowledge[j], seen, pairs);
                assert((string_views(seen@), pair_views(pairs@)) == pair_step(
                    item@,
                    kv[j as int],
                    before,
                ));
            },
            None => {},
        }
        assert(pair_views(pairs@).len() == pairs@.len());
        if pairs.len() >= MAX_PAIR_CANDIDATES {
            return true;
        }
        i = i + 1;
    }
    assert(ids.skip(n as int).len() == 0);
    false
}


/// Whether a candidate is to be decided (`Ok(false)`) or already was
/// decided the same way (`Ok(true)`, and nothing changes); any other
/// decided candidate is an error.
pub fn candidate_decision(status: &str, decided: &str) -> (r: Result<bool, String>)
    ensures
        if status@ == decided@ {
            r == Ok::<bool, String>(true)
        } else if status@ == "pending"@ {
            r == Ok::<bool, String>(false)
        } else {
            r matches Err(e) && e@ == "curation candidate is no longer pending"@
        },
{
    if str_eq(status, decided) {
        Ok(true)
    } else if str_eq(status, "pending") {
        Ok(false)
    } else {
        Err("curation candidate is no longer pending".to_string())
    }
}

/// What applying a pending candidate does.
#[derive(Clone, Copy, Debug, PartialEq, Eq)]
pub enum CurationEffect {
    /// One of the two is no longer active: the candidate becomes stale.
    MarkStale,
    /// The duplicate is confirmed; merging is a separate step.
    ConfirmDuplicate,
    /// The two are related.
    LinkRelated,
    /// The two conflict.
    RecordConflict,
}

/// The effect of applying a pending candidate with the classification.
pub fn curation_effect(both_active: bool, classification: &str) -> (r: Result<CurationEffect, String>)
    ensures
        if !both_active {
            r == Ok::<CurationEffect, String>(CurationEffect::MarkStale)
        } else if classification@ == "duplicate"@ {
            r == Ok::<CurationEffect, String>(CurationEffect::ConfirmDuplicate)
        } else if classification@ == "related"@ {
            r == Ok::<CurationEffect, String>(CurationEffect::LinkRelated)
        } else if classification@ == "conflict"@ {
            r == Ok::<CurationEffect, String>(CurationEffect::RecordConflict)
        } else {
            r matches Err(e) && e@ == "unsupported curation classification"@
        },
{
    if !both_active {
        Ok(CurationEffect::MarkStale)
    } else if str_eq(classification, "duplicate") {
        Ok(CurationEffect::ConfirmDuplicate)
    } else if str_eq(classification, "related") {
        Ok(CurationEffect::LinkRelated)
    } else if str_eq(classification, "conflict") {
        Ok(CurationEffect::RecordConflict)
    } else {
        Err("unsupported curation classification".to_string())
    }
}

} // verus!
