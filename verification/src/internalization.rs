//! Validation of extracted knowledge and generated questions, the
//! deterministic fallbacks used when no model output can be validated, the
//! merging of question batches, and when knowledge jobs start.
use vstd::prelude::*;
use crate::grounding::{
    candidate_list, first_exact, ground_evidence_quote, grounded_quote,
    lemma_grounded_quote_in_source, ungrounded_message,
};
use crate::text::{is_ws, lemma_collapse_ws_ends, lemma_contains_in_subrange, lemma_trim_ends, lemma_trim_fixed, lemma_trim_keeps_first, lemma_trim_subrange, occurs_at, ascii_lower, ascii_lowercase, char_count, decimal, decimal_string, lemma_contains_in_trim, lemma_trim_idempotent, chars_of, clone_strings, collapse_whitespace, collapse_ws, contains_seq, contains_string, push_char, push_str, str_eq, string_from, string_from_range, string_views, take_chars, take_str, to_lowercase, trim, trim_str, unicode_lowercase};

verus! {

// ---------------------------------------------------------------------------
// Records of internalization jobs and their results
// ---------------------------------------------------------------------------

/// The job started (or reused) to internalize a piece of knowledge.
#[derive(Clone, Debug)]
pub struct KnowledgeJobStart {
    pub job_id: String,
    pub knowledge_unit_id: String,
    pub status: String,
    pub reused: bool,
}

/// A grounded evidence quote, with its character offsets in the source.
#[derive(Clone, Debug)]
pub struct EvidenceRecord {
    pub id: String,
    pub knowledge_unit_id: String,
    pub source_id: String,
    pub text: String,
    pub start_offset: Option<i64>,
    pub end_offset: Option<i64>,
}

/// A stored review question.
#[derive(Clone, Debug)]
pub struct QuestionRecord {
    pub id: String,
    pub knowledge_unit_id: String,
    pub question_type: String,
    pub question: String,
    pub reference_points: Vec<String>,
    pub evidence_ids: Vec<String>,
    pub difficulty: i64,
    pub created_at: i64,
}

/// A background AI job on a piece of knowledge.
#[derive(Clone, Debug)]
pub struct AiJobRecord {
    pub id: String,
    pub knowledge_unit_id: String,
    pub job_type: String,
    pub status: String,
    pub error: Option<String>,
    pub created_at: i64,
    pub updated_at: i64,
}

/// A piece of knowledge taken from a source, as the source lists it.
#[derive(Clone, Debug)]
pub struct SourceKnowledgeUnitSummary {
    pub id: String,
    pub core_claim: String,
    pub status: String,
    pub mastery_score: i64,
    pub review_count: i64,
    pub archived_at: Option<i64>,
}

// ---------------------------------------------------------------------------
// Schemas and their views
// ---------------------------------------------------------------------------

/// One piece of knowledge extracted from a source.
#[derive(Clone, Debug)]
pub struct ExtractSchema {
    pub core_claim: String,
    pub concepts: Vec<String>,
    pub prerequisites: Vec<String>,
    pub important_details: Vec<String>,
    pub limitations: Vec<String>,
    pub evidence: Vec<String>,
}

/// The extracted knowledge of one source.
#[derive(Clone, Debug)]
pub struct ExtractBatchSchema {
    pub knowledge_units: Vec<ExtractSchema>,
}

/// One question about a piece of knowledge.
#[derive(Clone, Debug)]
pub struct QuestionSchema {
    pub question_type: String,
    pub question: String,
    pub reference_points: Vec<String>,
    pub evidence: Vec<String>,
    pub difficulty: i64,
}

/// The questions about one piece of knowledge.
#[derive(Clone, Debug)]
pub struct QuestionSetSchema {
    pub questions: Vec<QuestionSchema>,
}

/// The questions about the piece of knowledge at `knowledge_index`.
#[derive(Clone, Debug)]
pub struct QuestionBatchUnitSchema {
    pub knowledge_index: usize,
    pub questions: Vec<QuestionSchema>,
}

/// The questions about all pieces of knowledge of one source.
#[derive(Clone, Debug)]
pub struct QuestionBatchSchema {
    pub knowledge_units: Vec<QuestionBatchUnitSchema>,
}

pub struct ExtractView {
    pub core_claim: Seq<char>,
    pub concepts: Seq<Seq<char>>,
    pub prerequisites: Seq<Seq<char>>,
    pub important_details: Seq<Seq<char>>,
    pub limitations: Seq<Seq<char>>,
    pub evidence: Seq<Seq<char>>,
}

pub struct QuestionView {
    pub question_type: Seq<char>,
    pub question: Seq<char>,
    pub reference_points: Seq<Seq<char>>,
    pub evidence: Seq<Seq<char>>,
    pub difficulty: int,
}

pub struct QuestionUnitView {
    pub knowledge_index: int,
    pub questions: Seq<QuestionView>,
}

impl View for ExtractSchema {
    type V = ExtractView;

    open spec fn view(&self) -> ExtractView {
        ExtractView {
            core_claim: self.core_claim@,
            concepts: string_views(self.concepts@),
            prerequisites: string_views(self.prerequisites@),
            important_details: string_views(self.important_details@),
            limitations: string_views(self.limitations@),
            evidence: string_views(self.evidence@),
        }
    }
}

impl View for QuestionSchema {
    type V = QuestionView;

    open spec fn view(&self) -> QuestionView {
        QuestionView {
            question_type: self.question_type@,
            question: self.question@,
            reference_points: string_views(self.reference_points@),
            evidence: string_views(self.evidence@),
            difficulty: self.difficulty as int,
        }
    }
}

pub open spec fn extract_views(v: Seq<ExtractSchema>) -> Seq<ExtractView> {
    v.map_values(|e: ExtractSchema| e@)
}

pub open spec fn question_views(v: Seq<QuestionSchema>) -> Seq<QuestionView> {
    v.map_values(|q: QuestionSchema| q@)
}

impl QuestionUnitView {
    pub open spec fn update_index(self, i: int) -> QuestionUnitView {
        QuestionUnitView { knowledge_index: i, questions: self.questions }
    }
}

impl View for QuestionBatchUnitSchema {
    type V = QuestionUnitView;

    open spec fn view(&self) -> QuestionUnitView {
        QuestionUnitView {
            knowledge_index: self.knowledge_index as int,
            questions: question_views(self.questions@),
        }
    }
}

pub open spec fn unit_views(v: Seq<QuestionBatchUnitSchema>) -> Seq<QuestionUnitView> {
    v.map_values(|u: QuestionBatchUnitSchema| u@)
}

/// A copy of a piece of extracted knowledge.
pub fn clone_extract(e: &ExtractSchema) -> (r: ExtractSchema)
    ensures
        r@ == e@,
{
    ExtractSchema {
        core_claim: e.core_claim.clone(),
        concepts: clone_strings(&e.concepts),
        prerequisites: clone_strings(&e.prerequisites),
        important_details: clone_strings(&e.important_details),
        limitations: clone_strings(&e.limitations),
        evidence: clone_strings(&e.evidence),
    }
}

/// A copy of a question.
pub fn clone_question(q: &QuestionSchema) -> (r: QuestionSchema)
    ensures
        r@ == q@,
{
    QuestionSchema {
        question_type: q.question_type.clone(),
        question: q.question.clone(),
        reference_points: clone_strings(&q.reference_points),
        evidence: clone_strings(&q.evidence),
        difficulty: q.difficulty,
    }
}

/// A copy of a list of questions.
pub fn clone_questions(v: &Vec<QuestionSchema>) -> (r: Vec<QuestionSchema>)
    ensures
        question_views(r@) == question_views(v@),
{
    let mut r: Vec<QuestionSchema> = Vec::new();
    let n = v.len();
    let mut i: usize = 0;
    while i < n
        invariant
            n == v@.len(),
            i <= n,
            r@.len() == i,
            question_views(r@) == question_views(v@).take(i as int),
        decreases n - i,
    {
        r.push(clone_question(&v[i]));
        assert(question_views(r@) =~= question_views(v@).take(i + 1));
        i = i + 1;
    }
    assert(question_views(v@).take(n as int) =~= question_views(v@));
    r
}

// ---------------------------------------------------------------------------
// Specifications
// ---------------------------------------------------------------------------

/// The first `max_items` distinct values, trimmed, that are not empty and
/// have at most `max_chars` characters, in their original order.
pub open spec fn normalized_strings(values: Seq<Seq<char>>, max_items: int, max_chars: int) -> Seq<
    Seq<char>,
>
    decreases values.len(),
{
    if values.len() == 0 {
        Seq::empty()
    } else {
        let r = normalized_strings(values.drop_last(), max_items, max_chars);
        let t = trim(values.last());
        if t.len() > 0 && t.len() <= max_chars && r.len() < max_items && !r.contains(t) {
            r.push(t)
        } else {
            r
        }
    }
}

/// Grounds each proposed quote in the source until `max_items` distinct
/// quotes are kept. Quotes that are empty or longer than `max_chars` are
/// skipped; one that cannot be grounded makes the whole list invalid.
pub open spec fn grounded_evidence(
    values: Seq<Seq<char>>,
    source: Seq<char>,
    max_items: int,
    max_chars: int,
) -> Result<Seq<Seq<char>>, Seq<char>>
    decreases values.len(),
{
    if values.len() == 0 {
        Ok(Seq::empty())
    } else {
        match grounded_evidence(values.drop_last(), source, max_items, max_chars) {
            Err(e) => Err(e),
            Ok(g) => {
                let v = trim(values.last());
                if g.len() >= max_items || v.len() == 0 || v.len() > max_chars {
                    Ok(g)
                } else {
                    match grounded_quote(source, v) {
                        None => Err(ungrounded_message(v)),
                        Some(e) => if g.contains(e) {
                            Ok(g)
                        } else {
                            Ok(g.push(e))
                        },
                    }
                }
            },
        }
    }
}

/// A validated piece of extracted knowledge: a trimmed claim of 1 to 1200
/// characters, normalized lists, and at least one grounded quote.
pub open spec fn validated_extract(e: ExtractView, source: Seq<char>) -> Result<ExtractView, Seq<char>> {
    let claim = trim(e.core_claim);
    if claim.len() == 0 {
        Err("core_claim is empty"@)
    } else if claim.len() > 1200 {
        Err("core_claim is too long"@)
    } else {
        match grounded_evidence(e.evidence, source, 12, 2000) {
            Err(m) => Err(m),
            Ok(ev) => if ev.len() == 0 {
                Err("evidence is empty"@)
            } else {
                Ok(
                    ExtractView {
                        core_claim: claim,
                        concepts: normalized_strings(e.concepts, 16, 120),
                        prerequisites: normalized_strings(e.prerequisites, 12, 240),
                        important_details: normalized_strings(e.important_details, 16, 400),
                        limitations: normalized_strings(e.limitations, 12, 400),
                        evidence: ev,
                    },
                )
            },
        }
    }
}

/// Each piece validated in turn; claims must differ after Unicode lowercasing.
pub open spec fn validated_units(units: Seq<ExtractView>, source: Seq<char>) -> Result<
    Seq<ExtractView>,
    Seq<char>,
>
    decreases units.len(),
{
    if units.len() == 0 {
        Ok(Seq::empty())
    } else {
        match validated_units(units.drop_last(), source) {
            Err(m) => Err(m),
            Ok(done) => match validated_extract(units.last(), source) {
                Err(m) => Err(m),
                Ok(v) => if exists|k: int|
                    0 <= k < done.len() && unicode_lowercase(#[trigger] done[k].core_claim)
                        == unicode_lowercase(v.core_claim) {
                    Err("knowledge_units contains duplicate core_claim values"@)
                } else {
                    Ok(done.push(v))
                },
            },
        }
    }
}

/// A validated batch: 1 to `max_units` pieces, each validated, distinct claims.
pub open spec fn validated_extract_batch(
    units: Seq<ExtractView>,
    source: Seq<char>,
    max_units: nat,
) -> Result<Seq<ExtractView>, Seq<char>> {
    if units.len() == 0 || units.len() > max_units {
        Err("knowledge_units must contain 1 to "@ + decimal(max_units) + " items"@)
    } else {
        validated_units(units, source)
    }
}

/// The supported question types.
pub open spec fn is_question_type(t: Seq<char>) -> bool {
    t == "recall"@ || t == "explain"@ || t == "apply"@
}

/// A validated question: its type trimmed and lowercased (recall, explain or
/// apply), its text trimmed and 1 to 1000 characters, 1 to 12 reference
/// points, 1 to 8 grounded quotes, and a difficulty from 1 to 3.
pub open spec fn validated_question(q: QuestionView, source: Seq<char>) -> Result<
    QuestionView,
    Seq<char>,
> {
    let t = ascii_lower(trim(q.question_type));
    let text = trim(q.question);
    let refs = normalized_strings(q.reference_points, 12, 500);
    if !is_question_type(t) {
        Err("unsupported question type '"@ + t + "'"@)
    } else if text.len() == 0 || text.len() > 1000 {
        Err("question text is empty or too long"@)
    } else if refs.len() == 0 {
        Err("question reference_points is empty"@)
    } else {
        match grounded_evidence(q.evidence, source, 8, 2000) {
            Err(m) => Err(m),
            Ok(ev) => if ev.len() == 0 {
                Err("question evidence is empty"@)
            } else if !(1 <= q.difficulty <= 3) {
                Err("question difficulty must be between 1 and 3"@)
            } else {
                Ok(
                    QuestionView {
                        question_type: t,
                        question: text,
                        reference_points: refs,
                        evidence: ev,
                        difficulty: q.difficulty,
                    },
                )
            },
        }
    }
}

/// Every question validated, in order.
pub open spec fn validated_questions(qs: Seq<QuestionView>, source: Seq<char>) -> Result<
    Seq<QuestionView>,
    Seq<char>,
>
    decreases qs.len(),
{
    if qs.len() == 0 {
        Ok(Seq::empty())
    } else {
        match validated_questions(qs.drop_last(), source) {
            Err(m) => Err(m),
            Ok(done) => match validated_question(qs.last(), source) {
                Err(m) => Err(m),
                Ok(v) => Ok(done.push(v)),
            },
        }
    }
}

/// A validated question set: 2 to 4 questions, each validated.
pub open spec fn validated_question_set(qs: Seq<QuestionView>, source: Seq<char>) -> Result<
    Seq<QuestionView>,
    Seq<char>,
> {
    if qs.len() < 2 || qs.len() > 4 {
        Err("questions must contain 2 to 4 items"@)
    } else {
        validated_questions(qs, source)
    }
}

/// Each entry of a question batch validated in turn: its index below
/// `expected`, not used by an earlier entry, and its questions a valid set.
pub open spec fn validated_question_units(
    units: Seq<QuestionUnitView>,
    expected: int,
    source: Seq<char>,
) -> Result<Seq<QuestionUnitView>, Seq<char>>
    decreases units.len(),
{
    if units.len() == 0 {
        Ok(Seq::empty())
    } else {
        match validated_question_units(units.drop_last(), expected, source) {
            Err(m) => Err(m),
            Ok(done) => {
                let u = units.last();
                if u.knowledge_index >= expected || exists|k: int|
                    0 <= k < done.len() && #[trigger] done[k].knowledge_index == u.knowledge_index {
                    Err("question batch contains an invalid or duplicate knowledge_index"@)
                } else {
                    match validated_question_set(u.questions, source) {
                        Err(m) => Err(m),
                        Ok(qs) => Ok(
                            done.push(
                                QuestionUnitView { knowledge_index: u.knowledge_index, questions: qs },
                            ),
                        ),
                    }
                }
            },
        }
    }
}

/// Some entry uses index `k`.
pub open spec fn has_index(units: Seq<QuestionUnitView>, k: int) -> bool {
    exists|j: int| 0 <= j < units.len() && #[trigger] units[j].knowledge_index == k
}

/// Every index below `expected` is used by some entry.
pub open spec fn covers_indices(units: Seq<QuestionUnitView>, expected: int) -> bool {
    forall|k: int| 0 <= k < expected ==> #[trigger] has_index(units, k)
}

/// The entries ordered by their index.
pub open spec fn by_index(units: Seq<QuestionUnitView>, expected: int) -> Seq<QuestionUnitView> {
    Seq::new(
        expected as nat,
        |k: int| units[choose|j: int| 0 <= j < units.len() && units[j].knowledge_index == k],
    )
}

/// A validated question batch: exactly one entry for each of the `expected`
/// pieces of knowledge, each validated, ordered by index.
pub open spec fn validated_question_batch(
    units: Seq<QuestionUnitView>,
    expected: int,
    source: Seq<char>,
) -> Result<Seq<QuestionUnitView>, Seq<char>> {
    if expected == 0 || units.len() != expected {
        Err("question batch must contain exactly one entry per knowledge unit"@)
    } else {
        match validated_question_units(units, expected, source) {
            Err(m) => Err(m),
            Ok(vs) => if covers_indices(vs, expected) {
                Ok(by_index(vs, expected))
            } else {
                Err("question batch is missing a knowledge_index"@)
            },
        }
    }
}

/// Characters after which a chunk of a long source preferably ends.
pub open spec fn is_sentence_boundary(c: char) -> bool {
    c == '\n' || c == '。' || c == '！' || c == '？' || c == '；' || c == ';'
}

/// The last position in `[lo, hi)` that holds a sentence boundary.
pub open spec fn last_boundary(s: Seq<char>, lo: int, hi: int) -> Option<int>
    decreases hi - lo,
{
    if hi <= lo {
        None
    } else if is_sentence_boundary(s[hi - 1]) {
        Some(hi - 1)
    } else {
        last_boundary(s, lo, hi - 1)
    }
}

/// A sentence boundary found in a span lies inside it.
pub proof fn lemma_last_boundary_range(s: Seq<char>, lo: int, hi: int)
    ensures
        last_boundary(s, lo, hi) matches Some(p) ==> lo <= p < hi,
    decreases hi - lo,
{
    if hi > lo && !is_sentence_boundary(s[hi - 1]) {
        lemma_last_boundary_range(s, lo, hi - 1);
    }
}

/// Where the chunk that begins at `start` ends: `target` characters later,
/// or earlier, just after the last sentence boundary in the second half of
/// that span; always at least one character on.
pub open spec fn chunk_end(s: Seq<char>, start: int, target: int) -> int {
    let hard = if start + target < s.len() {
        start + target
    } else {
        s.len() as int
    };
    let end = if hard < s.len() {
        match last_boundary(s, start + target / 2, hard) {
            Some(p) => p + 1,
            None => hard,
        }
    } else {
        hard
    };
    if end <= start {
        if hard > start + 1 {
            hard
        } else {
            start + 1
        }
    } else {
        end
    }
}

/// A chunk is not empty and stays inside the text.
pub proof fn lemma_chunk_end_range(s: Seq<char>, start: int, target: int)
    requires
        0 <= start < s.len(),
        target >= 0,
    ensures
        start < chunk_end(s, start, target) <= s.len(),
        chunk_end(s, start, target) - start <= if target < 1 {
            1
        } else {
            target
        },
{
    let hard = if start + target < s.len() {
        start + target
    } else {
        s.len() as int
    };
    lemma_last_boundary_range(s, start + target / 2, hard);
}

/// The last sentence boundary in a span is found as such.
proof fn lemma_last_boundary_at(s: Seq<char>, lo: int, hi: int, p: int)
    requires
        lo <= p < hi <= s.len(),
        is_sentence_boundary(s[p]),
        forall|j: int| p < j < hi ==> !is_sentence_boundary(#[trigger] s[j]),
    ensures
        last_boundary(s, lo, hi) == Some(p),
    decreases hi - p,
{
    if hi - 1 > p {
        assert(!is_sentence_boundary(s[hi - 1]));
        lemma_last_boundary_at(s, lo, hi - 1, p);
    }
}

/// Each of `\n`, `。`, `！`, `？`, `；` and `;` ends a sentence: a chunk cut
/// before the end of the text ends right after the last of them in the
/// second half of its span.
pub proof fn lemma_chunk_ends_after_last_mark(s: Seq<char>, start: int, target: int, p: int)
    requires
        0 <= start,
        start + target < s.len(),
        start + target / 2 <= p < start + target,
        s[p] == '\n' || s[p] == '。' || s[p] == '！' || s[p] == '？' || s[p] == '；' || s[p] == ';',
        forall|j: int|
            p < j < start + target ==> !(#[trigger] s[j] == '\n' || s[j] == '。' || s[j] == '！'
                || s[j] == '？' || s[j] == '；' || s[j] == ';'),
    ensures
        chunk_end(s, start, target) == p + 1,
{
    lemma_last_boundary_at(s, start + target / 2, start + target, p);
}

/// Splitting a text longer than `target` for extraction: when the last of
/// `\n`, `。`, `！`, `？`, `；` and `;` in the second half of the first
/// `target` characters is at `p`, and the text up to it is not blank, the
/// first chunk is the text up to and including it.
pub proof fn lemma_first_chunk_ends_after_last_mark(s: Seq<char>, target: int, p: int)
    requires
        target < s.len(),
        target / 2 <= p < target,
        s[p] == '\n' || s[p] == '。' || s[p] == '！' || s[p] == '？' || s[p] == '；' || s[p] == ';',
        forall|j: int|
            p < j < target ==> !(#[trigger] s[j] == '\n' || s[j] == '。' || s[j] == '！' || s[j]
                == '？' || s[j] == '；' || s[j] == ';'),
        trim(s.subrange(0, p + 1)).len() > 0,
    ensures
        source_chunks(s, target).len() > 0,
        source_chunks(s, target)[0] == s.subrange(0, p + 1),
{
    lemma_chunk_ends_after_last_mark(s, 0, target, p);
    lemma_chunk_end_range(s, 0, target);
    let rest = source_chunks_from(s, p + 1, target);
    assert(source_chunks_from(s, 0, target) == seq![s.subrange(0, p + 1)] + rest);
}

/// The consecutive pieces of `s` from `start` on.
pub open spec fn source_pieces(s: Seq<char>, start: int, target: int) -> Seq<Seq<char>>
    decreases s.len() - start,
{
    if start < 0 || start >= s.len() || target < 0 {
        Seq::empty()
    } else {
        let e = chunk_end(s, start, target);
        proof {
            lemma_chunk_end_range(s, start, target);
        }
        seq![s.subrange(start, e)] + source_pieces(s, e, target)
    }
}

/// The pieces from `start` on that hold more than whitespace.
pub open spec fn source_chunks_from(s: Seq<char>, start: int, target: int) -> Seq<Seq<char>>
    decreases s.len() - start,
{
    if start < 0 || start >= s.len() || target < 0 {
        Seq::empty()
    } else {
        let e = chunk_end(s, start, target);
        proof {
            lemma_chunk_end_range(s, start, target);
        }
        let piece = s.subrange(start, e);
        let rest = source_chunks_from(s, e, target);
        if trim(piece).len() > 0 {
            seq![piece] + rest
        } else {
            rest
        }
    }
}

/// How a source is split for fallback extraction: whole when it has at most
/// `target` characters, else its non-blank pieces.
pub open spec fn source_chunks(s: Seq<char>, target: int) -> Seq<Seq<char>> {
    if s.len() <= target {
        seq![s]
    } else {
        source_chunks_from(s, 0, target)
    }
}

/// The concatenation of a list of texts.
pub open spec fn concat_all(l: Seq<Seq<char>>) -> Seq<char>
    decreases l.len(),
{
    if l.len() == 0 {
        Seq::empty()
    } else {
        l[0] + concat_all(l.drop_first())
    }
}

/// How many pieces of knowledge may be extracted from a source.
pub open spec fn unit_limit(n: int) -> int {
    if n <= 2500 {
        4
    } else if n <= 7000 {
        8
    } else {
        12
    }
}

/// A fallback claim: the text with whitespace collapsed, cut to `max`
/// characters, with `…` when something was cut.
pub open spec fn fallback_claim(v: Seq<char>, max: int) -> Seq<char> {
    let c = collapse_ws(v);
    if c.len() > max {
        take_chars(c, max).push('…')
    } else {
        c
    }
}

pub open spec fn empty_extract(claim: Seq<char>, evidence: Seq<char>) -> ExtractView {
    ExtractView {
        core_claim: claim,
        concepts: Seq::empty(),
        prerequisites: Seq::empty(),
        important_details: Seq::empty(),
        limitations: Seq::empty(),
        evidence: seq![evidence],
    }
}

/// Fallback knowledge from chunks: one piece per chunk with its trimmed text
/// as the quote and its summary as the claim, skipping blank chunks and
/// claims equal (after Unicode lowercasing) to an earlier one, at most `max`.
pub open spec fn fallback_units_from(chunks: Seq<Seq<char>>, max: int) -> Seq<ExtractView>
    decreases chunks.len(),
{
    if chunks.len() == 0 {
        Seq::empty()
    } else {
        let done = fallback_units_from(chunks.drop_last(), max);
        let evidence = trim(chunks.last());
        let claim = fallback_claim(evidence, 180);
        if done.len() >= max || evidence.len() == 0 || claim.len() == 0 || exists|k: int|
            0 <= k < done.len() && unicode_lowercase(#[trigger] done[k].core_claim)
                == unicode_lowercase(claim) {
            done
        } else {
            done.push(empty_extract(claim, evidence))
        }
    }
}

/// `fallback_units_from` with the key of each chunk's claim given by
/// position: each kept piece with its key; a claim repeats another when
/// their keys are equal.
pub open spec fn fallback_keyed(chunks: Seq<Seq<char>>, keys: Seq<Seq<char>>, max: int) -> Seq<
    (ExtractView, Seq<char>),
>
    decreases chunks.len(),
{
    if chunks.len() == 0 {
        Seq::empty()
    } else {
        let done = fallback_keyed(chunks.drop_last(), keys, max);
        let i = chunks.len() - 1;
        let evidence = trim(chunks[i]);
        let claim = fallback_claim(evidence, 180);
        if done.len() >= max || evidence.len() == 0 || claim.len() == 0 || exists|k: int|
            0 <= k < done.len() && #[trigger] done[k].1 == keys[i] {
            done
        } else {
            done.push((empty_extract(claim, evidence), keys[i]))
        }
    }
}

/// The key of each chunk's fallback claim: the claim lowercased.
pub open spec fn fallback_claim_keys(chunks: Seq<Seq<char>>) -> Seq<Seq<char>> {
    chunks.map_values(|c: Seq<char>| unicode_lowercase(fallback_claim(trim(c), 180)))
}

/// The pieces of the keyed fallback.
pub open spec fn keyed_units(ps: Seq<(ExtractView, Seq<char>)>) -> Seq<ExtractView> {
    ps.map_values(|p: (ExtractView, Seq<char>)| p.0)
}

/// With the keys of the chunks' lowercased claims, the keyed fallback is
/// the fallback.
pub proof fn lemma_fallback_keyed_is_fallback(chunks: Seq<Seq<char>>, keys: Seq<Seq<char>>, max: int)
    requires
        keys.len() >= chunks.len(),
        forall|k: int| 0 <= k < chunks.len() ==> #[trigger] keys[k] == fallback_claim_keys(chunks)[k],
    ensures
        keyed_units(fallback_keyed(chunks, keys, max)) == fallback_units_from(chunks, max),
        forall|k: int|
            0 <= k < fallback_keyed(chunks, keys, max).len() ==> (#[trigger] fallback_keyed(
                chunks,
                keys,
                max,
            )[k]).1 == unicode_lowercase(fallback_keyed(chunks, keys, max)[k].0.core_claim),
    decreases chunks.len(),
{
    if chunks.len() > 0 {
        let p = chunks.drop_last();
        assert forall|k: int| 0 <= k < p.len() implies #[trigger] keys[k] == fallback_claim_keys(p)[k] by {
            assert(fallback_claim_keys(chunks)[k] == fallback_claim_keys(p)[k]);
        }
        lemma_fallback_keyed_is_fallback(p, keys, max);
        let i = chunks.len() - 1;
        let done = fallback_keyed(p, keys, max);
        let units = fallback_units_from(p, max);
        let evidence = trim(chunks[i]);
        let claim = fallback_claim(evidence, 180);
        assert(chunks.last() == chunks[i]);
        assert(keys[i] == unicode_lowercase(claim));
        assert(units.len() == done.len());
        let keyed_dup = exists|k: int| 0 <= k < done.len() && #[trigger] done[k].1 == keys[i];
        let dup = exists|k: int|
            0 <= k < units.len() && unicode_lowercase(#[trigger] units[k].core_claim)
                == unicode_lowercase(claim);
        if keyed_dup {
            let k = choose|k: int| 0 <= k < done.len() && #[trigger] done[k].1 == keys[i];
            assert(units[k] == keyed_units(done)[k]);
            assert(unicode_lowercase(units[k].core_claim) == unicode_lowercase(claim));
        }
        if dup {
            let k = choose|k: int|
                0 <= k < units.len() && unicode_lowercase(#[trigger] units[k].core_claim)
                    == unicode_lowercase(claim);
            assert(units[k] == keyed_units(done)[k]);
            assert(done[k].1 == keys[i]);
        }
        let all = fallback_keyed(chunks, keys, max);
        if all.len() > done.len() {
            assert(all == done.push((empty_extract(claim, evidence), keys[i])));
            assert(keyed_units(all) =~= keyed_units(done).push(empty_extract(claim, evidence)));
            assert forall|k: int| 0 <= k < all.len() implies (#[trigger] all[k]).1 == unicode_lowercase(
                all[k].0.core_claim,
            ) by {
                if k < done.len() {
                    assert(all[k] == done[k]);
                }
            }
        }
    }
}

/// The fallback knowledge of a source, before validation.
pub open spec fn fallback_extract_units(s: Seq<char>, max_units: int) -> Seq<ExtractView> {
    let t = trim(s);
    let m = if max_units < 1 {
        1
    } else {
        max_units
    };
    let u = fallback_units_from(source_chunks(t, 650), m);
    if u.len() == 0 {
        seq![empty_extract(fallback_claim(t, 180), take_chars(t, 1200))]
    } else {
        u
    }
}

/// The two fallback questions of each piece of knowledge, before validation.
pub open spec fn fallback_question_units(units: Seq<ExtractView>, source: Seq<char>) -> Seq<
    QuestionUnitView,
> {
    Seq::new(
        units.len(),
        |i: int|
            {
                let u = units[i];
                let ev = if u.evidence.len() > 0 {
                    u.evidence[0]
                } else {
                    take_chars(trim(source), 800)
                };
                let reference = fallback_claim(u.core_claim, 320);
                QuestionUnitView {
                    knowledge_index: i,
                    questions: seq![
                        QuestionView {
                            question_type: "explain"@,
                            question: "请用自己的话解释这条知识："@ + reference,
                            reference_points: seq![reference],
                            evidence: seq![ev],
                            difficulty: 2,
                        },
                        QuestionView {
                            question_type: "recall"@,
                            question: "不看原文时，你能复述这条知识的核心结论吗？"@,
                            reference_points: seq![reference],
                            evidence: seq![ev],
                            difficulty: 1,
                        },
                    ],
                }
            },
    )
}

// ---------------------------------------------------------------------------
// Lemmas
// ---------------------------------------------------------------------------

/// Every kept quote is grounded: non-empty source text.
pub proof fn lemma_grounded_evidence_in_source(
    values: Seq<Seq<char>>,
    source: Seq<char>,
    max_items: int,
    max_chars: int,
)
    requires
        source.len() <= usize::MAX,
    ensures
        grounded_evidence(values, source, max_items, max_chars) matches Ok(g) ==> forall|k: int|
            0 <= k < g.len() ==> #[trigger] g[k].len() > 0 && contains_seq(source, g[k]),
    decreases values.len(),
{
    if values.len() > 0 {
        lemma_grounded_evidence_in_source(values.drop_last(), source, max_items, max_chars);
        lemma_grounded_quote_in_source(source, trim(values.last()));
    }
}

/// An invalid quote invalidates every longer list that starts with it.
pub proof fn lemma_grounded_evidence_err_prefix(
    values: Seq<Seq<char>>,
    source: Seq<char>,
    max_items: int,
    max_chars: int,
    i: int,
)
    requires
        0 <= i <= values.len(),
        grounded_evidence(values.take(i), source, max_items, max_chars) is Err,
    ensures
        grounded_evidence(values, source, max_items, max_chars) == grounded_evidence(
            values.take(i),
            source,
            max_items,
            max_chars,
        ),
    decreases values.len() - i,
{
    if i < values.len() {
        assert(values.take(i + 1).drop_last() =~= values.take(i));
        lemma_grounded_evidence_err_prefix(values, source, max_items, max_chars, i + 1);
    } else {
        assert(values.take(i) =~= values);
    }
}

/// An invalid piece invalidates every longer list that starts with it.
pub proof fn lemma_validated_units_err_prefix(units: Seq<ExtractView>, source: Seq<char>, i: int)
    requires
        0 <= i <= units.len(),
        validated_units(units.take(i), source) is Err,
    ensures
        validated_units(units, source) == validated_units(units.take(i), source),
    decreases units.len() - i,
{
    if i < units.len() {
        assert(units.take(i + 1).drop_last() =~= units.take(i));
        lemma_validated_units_err_prefix(units, source, i + 1);
    } else {
        assert(units.take(i) =~= units);
    }
}


/// `validated_units` with the key of each piece given by position: two
/// pieces repeat each other when their keys are equal.
pub open spec fn validated_units_keyed(
    units: Seq<ExtractView>,
    source: Seq<char>,
    keys: Seq<Seq<char>>,
) -> Result<Seq<ExtractView>, Seq<char>>
    decreases units.len(),
{
    if units.len() == 0 {
        Ok(Seq::empty())
    } else {
        match validated_units_keyed(units.drop_last(), source, keys) {
            Err(m) => Err(m),
            Ok(done) => match validated_extract(units.last(), source) {
                Err(m) => Err(m),
                Ok(v) => if keys.take(units.len() - 1).contains(keys[units.len() - 1]) {
                    Err("knowledge_units contains duplicate core_claim values"@)
                } else {
                    Ok(done.push(v))
                },
            },
        }
    }
}

/// The key of each piece: its trimmed claim, lowercased.
pub open spec fn claim_keys(units: Seq<ExtractView>) -> Seq<Seq<char>> {
    units.map_values(|u: ExtractView| unicode_lowercase(trim(u.core_claim)))
}

/// An invalid or repeated piece decides every longer list that starts with
/// it.
pub proof fn lemma_validated_units_keyed_err_prefix(
    units: Seq<ExtractView>,
    source: Seq<char>,
    keys: Seq<Seq<char>>,
    i: int,
)
    requires
        0 <= i <= units.len(),
        validated_units_keyed(units.take(i), source, keys) is Err,
    ensures
        validated_units_keyed(units, source, keys) == validated_units_keyed(units.take(i), source, keys),
    decreases units.len() - i,
{
    if i < units.len() {
        assert(units.take(i + 1).drop_last() =~= units.take(i));
        lemma_validated_units_keyed_err_prefix(units, source, keys, i + 1);
    } else {
        assert(units.take(i) =~= units);
    }
}

/// Validation keeps every piece, with its claim trimmed.
pub proof fn lemma_validated_units_claims(units: Seq<ExtractView>, source: Seq<char>)
    ensures
        validated_units(units, source) matches Ok(vs) ==> vs.len() == units.len() && forall|k: int|
            0 <= k < units.len() ==> #[trigger] vs[k].core_claim == trim(units[k].core_claim),
    decreases units.len(),
{
    if units.len() > 0 {
        lemma_validated_units_claims(units.drop_last(), source);
        if let Ok(vs) = validated_units(units, source) {
            let done = validated_units(units.drop_last(), source)->Ok_0;
            assert forall|k: int| 0 <= k < units.len() implies #[trigger] vs[k].core_claim == trim(
                units[k].core_claim,
            ) by {
                if k < units.len() - 1 {
                    assert(vs[k] == done[k]);
                    assert(units.drop_last()[k] == units[k]);
                }
            }
        }
    }
}

/// With the keys of the pieces' lowercased claims, keyed validation is
/// validation.
pub proof fn lemma_validated_units_keyed_is_validated(
    units: Seq<ExtractView>,
    source: Seq<char>,
    keys: Seq<Seq<char>>,
)
    requires
        keys.len() >= units.len(),
        forall|k: int| 0 <= k < units.len() ==> #[trigger] keys[k] == claim_keys(units)[k],
    ensures
        validated_units_keyed(units, source, keys) == validated_units(units, source),
    decreases units.len(),
{
    if units.len() > 0 {
        let p = units.drop_last();
        assert forall|k: int| 0 <= k < p.len() implies #[trigger] keys[k] == claim_keys(p)[k] by {
            assert(claim_keys(units)[k] == claim_keys(p)[k]);
        }
        lemma_validated_units_keyed_is_validated(p, source, keys);
        lemma_validated_units_claims(p, source);
        let n = units.len() - 1;
        if let Ok(done) = validated_units(p, source) {
            if let Ok(v) = validated_extract(units.last(), source) {
                assert(keys[n] == unicode_lowercase(v.core_claim));
                let keyed_dup = keys.take(n).contains(keys[n]);
                let dup = exists|k: int|
                    0 <= k < done.len() && unicode_lowercase(#[trigger] done[k].core_claim)
                        == unicode_lowercase(v.core_claim);
                if keyed_dup {
                    let k = choose|k: int| 0 <= k < keys.take(n).len() && keys.take(n)[k] == keys[n];
                    assert(keys[k] == claim_keys(units)[k]);
                    assert(done[k].core_claim == trim(p[k].core_claim));
                    assert(p[k] == units[k]);
                    assert(unicode_lowercase(done[k].core_claim) == unicode_lowercase(v.core_claim));
                }
                if dup {
                    let k = choose|k: int|
                        0 <= k < done.len() && unicode_lowercase(#[trigger] done[k].core_claim)
                            == unicode_lowercase(v.core_claim);
                    assert(done[k].core_claim == trim(p[k].core_claim));
                    assert(p[k] == units[k]);
                    assert(keys[k] == claim_keys(units)[k]);
                    assert(keys.take(n)[k] == keys[n]);
                }
            }
        }
    }
}

/// An invalid question invalidates every longer list that starts with it.
pub proof fn lemma_validated_questions_err_prefix(qs: Seq<QuestionView>, source: Seq<char>, i: int)
    requires
        0 <= i <= qs.len(),
        validated_questions(qs.take(i), source) is Err,
    ensures
        validated_questions(qs, source) == validated_questions(qs.take(i), source),
    decreases qs.len() - i,
{
    if i < qs.len() {
        assert(qs.take(i + 1).drop_last() =~= qs.take(i));
        lemma_validated_questions_err_prefix(qs, source, i + 1);
    } else {
        assert(qs.take(i) =~= qs);
    }
}

/// An invalid entry invalidates every longer batch that starts with it.
pub proof fn lemma_validated_question_units_err_prefix(
    units: Seq<QuestionUnitView>,
    expected: int,
    source: Seq<char>,
    i: int,
)
    requires
        0 <= i <= units.len(),
        validated_question_units(units.take(i), expected, source) is Err,
    ensures
        validated_question_units(units, expected, source) == validated_question_units(
            units.take(i),
            expected,
            source,
        ),
    decreases units.len() - i,
{
    if i < units.len() {
        assert(units.take(i + 1).drop_last() =~= units.take(i));
        lemma_validated_question_units_err_prefix(units, expected, source, i + 1);
    } else {
        assert(units.take(i) =~= units);
    }
}

/// Validated entries use distinct indices.
pub proof fn lemma_validated_units_distinct(
    units: Seq<QuestionUnitView>,
    expected: int,
    source: Seq<char>,
)
    ensures
        validated_question_units(units, expected, source) matches Ok(vs) ==> forall|a: int, b: int|
            0 <= a < b < vs.len() ==> #[trigger] vs[a].knowledge_index
                != #[trigger] vs[b].knowledge_index,
    decreases units.len(),
{
    if units.len() > 0 {
        lemma_validated_units_distinct(units.drop_last(), expected, source);
    }
}

/// Splitting loses nothing: the pieces of a text, concatenated, are the text,
/// and each piece has between one and `max(target, 1)` characters.
pub proof fn lemma_source_pieces_reassemble(s: Seq<char>, start: int, target: int)
    requires
        0 <= start <= s.len(),
        target >= 0,
    ensures
        concat_all(source_pieces(s, start, target)) == s.subrange(start, s.len() as int),
        forall|k: int|
            0 <= k < source_pieces(s, start, target).len() ==> 1 <= (
            #[trigger] source_pieces(s, start, target)[k]).len() <= if target < 1 {
                1
            } else {
                target
            },
    decreases s.len() - start,
{
    if start < s.len() {
        let e = chunk_end(s, start, target);
        lemma_chunk_end_range(s, start, target);
        lemma_source_pieces_reassemble(s, e, target);
        let p = source_pieces(s, start, target);
        assert(p.drop_first() =~= source_pieces(s, e, target));
        assert(s.subrange(start, e) + s.subrange(e, s.len() as int) =~= s.subrange(
            start,
            s.len() as int,
        ));
        assert forall|k: int| 0 <= k < p.len() implies 1 <= (#[trigger] p[k]).len() <= if target
            < 1 {
            1
        } else {
            target
        } by {
            if k > 0 {
                assert(p[k] == source_pieces(s, e, target)[k - 1]);
            }
        }
    } else {
        assert(s.subrange(start, s.len() as int) =~= Seq::<char>::empty());
    }
}

/// The chunks are the pieces that hold more than whitespace; when no piece is
/// only whitespace, the chunks are all the pieces.
pub proof fn lemma_source_chunks_are_nonblank_pieces(s: Seq<char>, start: int, target: int)
    requires
        0 <= start <= s.len(),
        target >= 0,
    ensures
        forall|k: int|
            0 <= k < source_chunks_from(s, start, target).len() ==> trim(
                #[trigger] source_chunks_from(s, start, target)[k],
            ).len() > 0 && source_pieces(s, start, target).contains(
                source_chunks_from(s, start, target)[k],
            ),
        (forall|k: int|
            0 <= k < source_pieces(s, start, target).len() ==> trim(
                #[trigger] source_pieces(s, start, target)[k],
            ).len() > 0) ==> source_chunks_from(s, start, target) == source_pieces(s, start, target),
    decreases s.len() - start,
{
    if start < s.len() {
        let e = chunk_end(s, start, target);
        lemma_chunk_end_range(s, start, target);
        lemma_source_chunks_are_nonblank_pieces(s, e, target);
        let p = source_pieces(s, start, target);
        let c = source_chunks_from(s, start, target);
        let pr = source_pieces(s, e, target);
        let cr = source_chunks_from(s, e, target);
        assert(p.drop_first() =~= pr);
        assert forall|k: int| 0 <= k < c.len() implies trim(#[trigger] c[k]).len() > 0
            && p.contains(c[k]) by {
            if trim(s.subrange(start, e)).len() > 0 {
                if k == 0 {
                    assert(p[0] == c[0]);
                } else {
                    assert(c[k] == cr[k - 1]);
                    let j = choose|j: int| 0 <= j < pr.len() && pr[j] == cr[k - 1];
                    assert(p[j + 1] == pr[j]);
                }
            } else {
                assert(c[k] == cr[k]);
                let j = choose|j: int| 0 <= j < pr.len() && pr[j] == cr[k];
                assert(p[j + 1] == pr[j]);
            }
        }
        if forall|k: int| 0 <= k < p.len() ==> trim(#[trigger] p[k]).len() > 0 {
            assert(trim(p[0]).len() > 0);
            assert forall|k: int| 0 <= k < pr.len() implies trim(#[trigger] pr[k]).len() > 0 by {
                assert(pr[k] == p[k + 1]);
            }
            assert(c =~= p);
        }
    }
}

/// A trimmed quote found in the source grounds as itself.
pub proof fn lemma_grounded_itself(source: Seq<char>, q: Seq<char>)
    requires
        q.len() > 0,
        trim(q) == q,
        contains_seq(source, q),
    ensures
        grounded_quote(source, q) == Some(q),
{
    let cs = candidate_list(q);
    assert(cs.len() > 0 && cs[0] == q);
    assert(first_exact(source, cs) == Some(q));
}

/// What occurs in a text that occurs in another occurs in that other.
pub proof fn lemma_contains_trans(s: Seq<char>, m: Seq<char>, q: Seq<char>)
    requires
        contains_seq(s, m),
        contains_seq(m, q),
    ensures
        contains_seq(s, q),
{
    let i = choose|i: int| occurs_at(s, m, i);
    assert(s.subrange(i, i + m.len()) == m);
    lemma_contains_in_subrange(s, i, i + m.len(), q);
}

/// A text holds its trimmed self.
pub proof fn lemma_contains_trim(s: Seq<char>)
    ensures
        contains_seq(s, trim(s)),
{
    let a = lemma_trim_subrange(s);
    assert(occurs_at(s, trim(s), a));
}

/// A fallback claim of a trimmed, non-empty text is trimmed, non-empty and
/// at most one character over `max`.
pub proof fn lemma_fallback_claim_shape(v: Seq<char>, max: int)
    requires
        v.len() > 0,
        trim(v) == v,
        max >= 1,
    ensures
        fallback_claim(v, max).len() > 0,
        fallback_claim(v, max).len() <= max + 1,
        trim(fallback_claim(v, max)) == fallback_claim(v, max),
{
    lemma_trim_ends(v);
    lemma_collapse_ws_ends(v);
    let c = collapse_ws(v);
    if c.len() > max {
        let t = take_chars(c, max).push('…');
        assert(t[0] == c[0]);
        assert(t.last() == '…');
        assert(!is_ws('…'));
        lemma_trim_fixed(t);
    } else {
        lemma_trim_fixed(c);
    }
}

/// A piece of knowledge as fallback extraction makes it: a trimmed claim of
/// 1 to 1200 characters and one trimmed quote of 1 to 2000 characters
/// found in the source, nothing else.
pub open spec fn fallback_unit_valid(u: ExtractView, source: Seq<char>) -> bool {
    &&& u.evidence.len() == 1
    &&& u == empty_extract(u.core_claim, u.evidence[0])
    &&& trim(u.core_claim) == u.core_claim
    &&& 0 < u.core_claim.len() <= 1200
    &&& trim(u.evidence[0]) == u.evidence[0]
    &&& 0 < u.evidence[0].len() <= 2000
    &&& contains_seq(source, u.evidence[0])
}

/// One quote that trims to a grounded text of 1 to 2000 characters grounds
/// as that text.
pub proof fn lemma_grounded_evidence_single(source: Seq<char>, e: Seq<char>)
    requires
        0 < trim(e).len() <= 2000,
        grounded_quote(source, trim(e)) == Some(trim(e)),
    ensures
        grounded_evidence(seq![e], source, 12, 2000) == Ok::<Seq<Seq<char>>, Seq<char>>(
            seq![trim(e)],
        ),
{
    let vs = seq![e];
    assert(vs.drop_last() =~= Seq::<Seq<char>>::empty());
    assert(grounded_evidence(Seq::<Seq<char>>::empty(), source, 12, 2000) == Ok::<
        Seq<Seq<char>>,
        Seq<char>,
    >(Seq::<Seq<char>>::empty()));
    assert(vs.last() == e);
    assert(!Seq::<Seq<char>>::empty().contains(trim(e)));
    assert(Seq::<Seq<char>>::empty().push(trim(e)) =~= seq![trim(e)]);
}

/// Such a piece passes validation unchanged.
pub proof fn lemma_fallback_unit_validates(u: ExtractView, source: Seq<char>)
    requires
        fallback_unit_valid(u, source),
    ensures
        validated_extract(u, source) == Ok::<ExtractView, Seq<char>>(u),
{
    let e = u.evidence[0];
    lemma_grounded_itself(source, e);
    lemma_grounded_evidence_single(source, e);
    assert(u.evidence =~= seq![e]);
    assert(normalized_strings(Seq::<Seq<char>>::empty(), 16, 120) =~= Seq::<Seq<char>>::empty());
}

/// Pieces made by fallback extraction, with claims that differ after
/// lowercasing, pass validation unchanged.
pub proof fn lemma_fallback_units_validate(units: Seq<ExtractView>, source: Seq<char>)
    requires
        forall|k: int| 0 <= k < units.len() ==> fallback_unit_valid(#[trigger] units[k], source),
        forall|a: int, b: int|
            0 <= a < b < units.len() ==> unicode_lowercase(#[trigger] units[a].core_claim)
                != unicode_lowercase(#[trigger] units[b].core_claim),
    ensures
        validated_units(units, source) == Ok::<Seq<ExtractView>, Seq<char>>(units),
    decreases units.len(),
{
    if units.len() > 0 {
        let p = units.drop_last();
        assert forall|k: int| 0 <= k < p.len() implies fallback_unit_valid(#[trigger] p[k], source) by {
            assert(p[k] == units[k]);
        }
        assert forall|a: int, b: int| 0 <= a < b < p.len() implies unicode_lowercase(
            #[trigger] p[a].core_claim,
        ) != unicode_lowercase(#[trigger] p[b].core_claim) by {
            assert(p[a] == units[a] && p[b] == units[b]);
        }
        lemma_fallback_units_validate(p, source);
        let last = units[units.len() - 1];
        assert(units.last() == last);
        lemma_fallback_unit_validates(last, source);
        assert forall|k: int| 0 <= k < p.len() implies unicode_lowercase(
            #[trigger] p[k].core_claim,
        ) != unicode_lowercase(last.core_claim) by {
            assert(p[k] == units[k]);
        }
        assert(!(exists|k: int|
            0 <= k < p.len() && unicode_lowercase(#[trigger] p[k].core_claim) == unicode_lowercase(
                last.core_claim,
            )));
        assert(p.push(last) =~= units);
        assert(validated_units(units, source) == Ok::<Seq<ExtractView>, Seq<char>>(p.push(last)));
    } else {
        assert(units =~= Seq::<ExtractView>::empty());
    }
}

/// The chunks of a text are parts of it of at most `target` characters.
pub proof fn lemma_chunks_from_in_text(s: Seq<char>, start: int, target: int)
    requires
        target >= 1,
    ensures
        forall|k: int|
            0 <= k < source_chunks_from(s, start, target).len() ==> (#[trigger] source_chunks_from(
                s,
                start,
                target,
            )[k]).len() <= target && contains_seq(s, source_chunks_from(s, start, target)[k]),
    decreases s.len() - start,
{
    if !(start < 0 || start >= s.len()) {
        let e = chunk_end(s, start, target);
        lemma_chunk_end_range(s, start, target);
        lemma_chunks_from_in_text(s, e, target);
        let piece = s.subrange(start, e);
        assert(occurs_at(s, piece, start));
        let rest = source_chunks_from(s, e, target);
        let all = source_chunks_from(s, start, target);
        if trim(piece).len() > 0 {
            assert(all == seq![piece] + rest);
            assert forall|k: int| 0 <= k < all.len() implies (#[trigger] all[k]).len() <= target
                && contains_seq(s, all[k]) by {
                if k > 0 {
                    assert(all[k] == rest[k - 1]);
                }
            }
        }
    }
}

/// The chunks of a text are parts of it of at most `target` characters.
pub proof fn lemma_chunks_in_text(s: Seq<char>, target: int)
    requires
        target >= 1,
    ensures
        forall|k: int|
            0 <= k < source_chunks(s, target).len() ==> (#[trigger] source_chunks(s, target)[k]).len()
                <= target && contains_seq(s, source_chunks(s, target)[k]),
{
    if s.len() <= target {
        assert(s.subrange(0, s.len() as int) =~= s);
        assert(occurs_at(s, s, 0));
        assert(source_chunks(s, target) == seq![s]);
    } else {
        lemma_chunks_from_in_text(s, 0, target);
    }
}

/// Fallback pieces from chunks of the source are valid, at most `max`, with
/// claims that differ after lowercasing.
pub proof fn lemma_fallback_units_from_valid(chunks: Seq<Seq<char>>, max: int, source: Seq<char>)
    requires
        max >= 0,
        forall|k: int|
            0 <= k < chunks.len() ==> (#[trigger] chunks[k]).len() <= 2000 && contains_seq(
                source,
                chunks[k],
            ),
    ensures
        fallback_units_from(chunks, max).len() <= max,
        forall|k: int|
            0 <= k < fallback_units_from(chunks, max).len() ==> fallback_unit_valid(
                #[trigger] fallback_units_from(chunks, max)[k],
                source,
            ),
        forall|a: int, b: int|
            0 <= a < b < fallback_units_from(chunks, max).len() ==> unicode_lowercase(
                #[trigger] fallback_units_from(chunks, max)[a].core_claim,
            ) != unicode_lowercase(#[trigger] fallback_units_from(chunks, max)[b].core_claim),
    decreases chunks.len(),
{
    if chunks.len() > 0 {
        let p = chunks.drop_last();
        assert forall|k: int| 0 <= k < p.len() implies (#[trigger] p[k]).len() <= 2000
            && contains_seq(source, p[k]) by {
            assert(p[k] == chunks[k]);
        }
        lemma_fallback_units_from_valid(p, max, source);
        let done = fallback_units_from(p, max);
        let c = chunks[chunks.len() - 1];
        assert(chunks.last() == c);
        let evidence = trim(c);
        let claim = fallback_claim(evidence, 180);
        let all = fallback_units_from(chunks, max);
        if all.len() > done.len() {
            lemma_trim_idempotent(c);
            lemma_trim_ends(c);
            lemma_contains_trim(c);
            lemma_contains_trans(source, c, evidence);
            lemma_fallback_claim_shape(evidence, 180);
            let u = empty_extract(claim, evidence);
            assert(all == done.push(u));
            assert(fallback_unit_valid(u, source));
            assert forall|k: int| 0 <= k < all.len() implies fallback_unit_valid(
                #[trigger] all[k],
                source,
            ) by {
                if k < done.len() {
                    assert(all[k] == done[k]);
                }
            }
            assert forall|a: int, b: int| 0 <= a < b < all.len() implies unicode_lowercase(
                #[trigger] all[a].core_claim,
            ) != unicode_lowercase(#[trigger] all[b].core_claim) by {
                assert(all[a] == done[a]);
                if b < done.len() {
                    assert(all[b] == done[b]);
                }
            }
        }
    }
}

/// Fallback extraction never fails on a source that is not blank: what it
/// makes passes the validation of model output.
pub proof fn lemma_fallback_extract_valid(s: Seq<char>, max_units: int)
    requires
        trim(s).len() > 0,
    ensures
        validated_extract_batch(
            fallback_extract_units(s, max_units),
            trim(s),
            if max_units < 1 {
                1
            } else {
                max_units as nat
            },
        ) is Ok,
{
    let t = trim(s);
    let m = if max_units < 1 {
        1
    } else {
        max_units
    };
    lemma_trim_idempotent(s);
    lemma_trim_ends(s);
    lemma_chunks_in_text(t, 650);
    let cs = source_chunks(t, 650);
    assert forall|k: int| 0 <= k < cs.len() implies (#[trigger] cs[k]).len() <= 2000
        && contains_seq(t, cs[k]) by {}
    lemma_fallback_units_from_valid(cs, m, t);
    let u = fallback_units_from(cs, m);
    if u.len() == 0 {
        let x = take_chars(t, 1200);
        let v = trim(x);
        let claim = fallback_claim(t, 180);
        lemma_fallback_claim_shape(t, 180);
        assert(x[0] == t[0]);
        lemma_trim_keeps_first(x);
        lemma_trim_ends(x);
        lemma_trim_idempotent(x);
        assert(t.subrange(0, x.len() as int) =~= x);
        assert(occurs_at(t, x, 0));
        lemma_contains_trim(x);
        lemma_contains_trans(t, x, v);
        lemma_grounded_itself(t, v);
        lemma_grounded_evidence_single(t, x);
        let unit = empty_extract(claim, x);
        assert(validated_extract(unit, t) is Ok);
        let one = seq![unit];
        assert(one.drop_last() =~= Seq::<ExtractView>::empty());
        assert(validated_units(Seq::<ExtractView>::empty(), t) == Ok::<
            Seq<ExtractView>,
            Seq<char>,
        >(Seq::<ExtractView>::empty()));
        assert(one.last() == unit);
        assert(validated_units(one, t) is Ok);
    } else {
        lemma_fallback_units_validate(u, t);
    }
}

/// Validated extraction keeps every piece, with a non-empty claim and only
/// quotes that are non-empty text of the source.
pub proof fn lemma_validated_units_grounded(units: Seq<ExtractView>, source: Seq<char>)
    requires
        source.len() <= usize::MAX,
    ensures
        validated_units(units, source) matches Ok(vs) ==> vs.len() == units.len() && forall|
            k: int,
        |
            0 <= k < vs.len() ==> (#[trigger] vs[k]).core_claim.len() > 0 && vs[k].evidence.len()
                > 0 && forall|j: int|
                0 <= j < vs[k].evidence.len() ==> (#[trigger] vs[k].evidence[j]).len() > 0
                    && contains_seq(source, vs[k].evidence[j]),
    decreases units.len(),
{
    if units.len() > 0 {
        lemma_validated_units_grounded(units.drop_last(), source);
        lemma_grounded_evidence_in_source(units.last().evidence, source, 12, 2000);
    }
}

/// Validated questions keep their number, and quote only source text.
pub proof fn lemma_validated_questions_grounded(qs: Seq<QuestionView>, source: Seq<char>)
    requires
        source.len() <= usize::MAX,
    ensures
        validated_questions(qs, source) matches Ok(vs) ==> vs.len() == qs.len() && forall|
            k: int,
        |
            0 <= k < vs.len() ==> (#[trigger] vs[k]).evidence.len() > 0 && forall|j: int|
                0 <= j < vs[k].evidence.len() ==> contains_seq(
                    source,
                    #[trigger] vs[k].evidence[j],
                ),
    decreases qs.len(),
{
    if qs.len() > 0 {
        lemma_validated_questions_grounded(qs.drop_last(), source);
        lemma_grounded_evidence_in_source(qs.last().evidence, source, 8, 2000);
        if let Ok(vs) = validated_questions(qs, source) {
            let prev = validated_questions(qs.drop_last(), source)->Ok_0;
            assert forall|k: int| 0 <= k < vs.len() implies (#[trigger] vs[k]).evidence.len() > 0
                && forall|j: int|
                0 <= j < vs[k].evidence.len() ==> contains_seq(
                    source,
                    #[trigger] vs[k].evidence[j],
                ) by {
                if k < vs.len() - 1 {
                    assert(vs[k] == prev[k]);
                } else {
                    let v = validated_question(qs.last(), source)->Ok_0;
                    assert(vs[k] == v);
                    assert(grounded_evidence(qs.last().evidence, source, 8, 2000) == Ok::<Seq<Seq<char>>, Seq<char>>(v.evidence));
                    assert forall|j: int| 0 <= j < v.evidence.len() implies contains_seq(
                        source,
                        #[trigger] v.evidence[j],
                    ) by {
                        assert(v.evidence[j].len() > 0);
                    }
                }
            }
        }
    }
}

/// Validated question entries keep the number of questions of each entry and
/// quote only source text.
pub proof fn lemma_validated_question_units_grounded(
    units: Seq<QuestionUnitView>,
    expected: int,
    source: Seq<char>,
)
    requires
        source.len() <= usize::MAX,
    ensures
        validated_question_units(units, expected, source) matches Ok(vs) ==> vs.len()
            == units.len() && forall|k: int|
            0 <= k < vs.len() ==> (#[trigger] vs[k]).questions.len() == units[k].questions.len()
                && vs[k].knowledge_index == units[k].knowledge_index && forall|q: int, j: int|
                0 <= q < vs[k].questions.len() && 0 <= j < vs[k].questions[q].evidence.len()
                    ==> contains_seq(source, #[trigger] vs[k].questions[q].evidence[j]),
    decreases units.len(),
{
    if units.len() > 0 {
        lemma_validated_question_units_grounded(units.drop_last(), expected, source);
        lemma_validated_questions_grounded(units.last().questions, source);
        if let Ok(vs) = validated_question_units(units, expected, source) {
            let prev = validated_question_units(units.drop_last(), expected, source)->Ok_0;
            assert forall|k: int| 0 <= k < vs.len() implies (#[trigger] vs[k]).questions.len()
                == units[k].questions.len() && vs[k].knowledge_index == units[k].knowledge_index
                && forall|q: int, j: int|
                0 <= q < vs[k].questions.len() && 0 <= j < vs[k].questions[q].evidence.len()
                    ==> contains_seq(source, #[trigger] vs[k].questions[q].evidence[j]) by {
                if k < vs.len() - 1 {
                    assert(vs[k] == prev[k]);
                    assert(units[k] == units.drop_last()[k]);
                }
            }
        }
    }
}

/// A validated batch has one entry per index, each with as many questions as
/// some input entry had, quoting only source text.
pub proof fn lemma_validated_question_batch_grounded(
    units: Seq<QuestionUnitView>,
    expected: int,
    source: Seq<char>,
)
    requires
        source.len() <= usize::MAX,
    ensures
        validated_question_batch(units, expected, source) matches Ok(r) ==> r.len() == expected
            && forall|k: int|
            0 <= k < r.len() ==> (#[trigger] r[k]).knowledge_index == k && (exists|c: int|
                0 <= c < units.len() && r[k].questions.len() == units[c].questions.len())
                && forall|q: int, j: int|
                0 <= q < r[k].questions.len() && 0 <= j < r[k].questions[q].evidence.len()
                    ==> contains_seq(source, #[trigger] r[k].questions[q].evidence[j]),
{
    if let Ok(r) = validated_question_batch(units, expected, source) {
        let vs = validated_question_units(units, expected, source)->Ok_0;
        lemma_validated_question_units_grounded(units, expected, source);
        assert forall|k: int| 0 <= k < r.len() implies (#[trigger] r[k]).knowledge_index == k && (
        exists|c: int| 0 <= c < units.len() && r[k].questions.len() == units[c].questions.len())
            && forall|q: int, j: int|
            0 <= q < r[k].questions.len() && 0 <= j < r[k].questions[q].evidence.len()
                ==> contains_seq(source, #[trigger] r[k].questions[q].evidence[j]) by {
            assert(has_index(vs, k));
            let c = choose|c: int| 0 <= c < vs.len() && vs[c].knowledge_index == k;
            assert(r[k] == vs[c]);
            assert(r[k].questions.len() == units[c].questions.len());
        }
    }
}

// ---------------------------------------------------------------------------
// Executable validation
// ---------------------------------------------------------------------------

/// Trims the values, drops empty ones and those over `max_chars` characters,
/// keeps the first of equal ones, and at most `max_items`.
pub fn normalize_strings(values: Vec<String>, max_items: usize, max_chars: usize) -> (r: Vec<
    String,
>)
    ensures
        string_views(r@) == normalized_strings(
            string_views(values@),
            max_items as int,
            max_chars as int,
        ),
{
    let mut r: Vec<String> = Vec::new();
    let n = values.len();
    let mut i: usize = 0;
    assert(string_views(r@) =~= normalized_strings(string_views(values@).take(0), max_items as int, max_chars as int));
    while i < n
        invariant
            n == values@.len(),
            i <= n,
            string_views(r@) == normalized_strings(
                string_views(values@).take(i as int),
                max_items as int,
                max_chars as int,
            ),
        decreases n - i,
    {
        let t = trim_str(values[i].as_str());
        let len = char_count(t.as_str());
        proof {
            let pre = string_views(values@).take(i as int);
            let post = string_views(values@).take(i + 1);
            assert(post.drop_last() =~= pre);
            assert(post.last() == values@[i as int]@);
        }
        if len > 0 && len <= max_chars && r.len() < max_items && !contains_string(&r, &t) {
            r.push(t);
            assert(string_views(r@) =~= string_views(r@.drop_last()).push(t@));
        }
        i = i + 1;
    }
    assert(string_views(values@).take(n as int) =~= string_views(values@));
    r
}

/// Grounds each proposed quote in the source (see `grounded_evidence`).
pub fn normalize_grounded_evidence(
    values: Vec<String>,
    source_text: &str,
    max_items: usize,
    max_chars: usize,
) -> (r: Result<Vec<String>, String>)
    ensures
        match r {
            Ok(g) => grounded_evidence(
                string_views(values@),
                source_text@,
                max_items as int,
                max_chars as int,
            ) == Ok::<Seq<Seq<char>>, Seq<char>>(string_views(g@)),
            Err(e) => grounded_evidence(
                string_views(values@),
                source_text@,
                max_items as int,
                max_chars as int,
            ) == Err::<Seq<Seq<char>>, Seq<char>>(e@),
        },
{
    let mut grounded: Vec<String> = Vec::new();
    let n = values.len();
    let mut i: usize = 0;
    assert(string_views(values@).take(0) =~= Seq::<Seq<char>>::empty());
    assert(string_views(grounded@) =~= Seq::<Seq<char>>::empty());
    while i < n
        invariant
            n == values@.len(),
            i <= n,
            grounded_evidence(
                string_views(values@).take(i as int),
                source_text@,
                max_items as int,
                max_chars as int,
            ) == Ok::<Seq<Seq<char>>, Seq<char>>(string_views(grounded@)),
        decreases n - i,
    {
        proof {
            let pre = string_views(values@).take(i as int);
            let post = string_views(values@).take(i + 1);
            assert(post.drop_last() =~= pre);
            assert(post.last() == values@[i as int]@);
        }
        if grounded.len() < max_items {
            let value = trim_str(values[i].as_str());
            let len = char_count(value.as_str());
            if len > 0 && len <= max_chars {
                let exact = match ground_evidence_quote(source_text, value.as_str()) {
                    Ok(exact) => exact,
                    Err(error) => {
                        proof {
                            lemma_trim_idempotent(values@[i as int]@);
                            lemma_grounded_evidence_err_prefix(
                                string_views(values@),
                                source_text@,
                                max_items as int,
                                max_chars as int,
                                i + 1,
                            );
                        }
                        return Err(error);
                    },
                };
                if !contains_string(&grounded, &exact) {
                    let ghost before = string_views(grounded@);
                    grounded.push(exact);
                    assert(string_views(grounded@) =~= before.push(exact@));
                }
            }
        }
        i = i + 1;
    }
    assert(string_views(values@).take(n as int) =~= string_views(values@));
    Ok(grounded)
}

/// Validates one piece of extracted knowledge (see `validated_extract`).
pub fn validate_extract(extract: ExtractSchema, source_text: &str) -> (r: Result<
    ExtractSchema,
    String,
>)
    ensures
        match r {
            Ok(e) => validated_extract(extract@, source_text@) == Ok::<ExtractView, Seq<char>>(e@),
            Err(m) => validated_extract(extract@, source_text@) == Err::<ExtractView, Seq<char>>(m@),
        },
{
    let core_claim = trim_str(extract.core_claim.as_str());
    let len = char_count(core_claim.as_str());
    if len == 0 {
        return Err("core_claim is empty".to_string());
    }
    if len > 1200 {
        return Err("core_claim is too long".to_string());
    }
    let ghost ev0 = string_views(extract.evidence@);
    let concepts = normalize_strings(extract.concepts, 16, 120);
    let prerequisites = normalize_strings(extract.prerequisites, 12, 240);
    let important_details = normalize_strings(extract.important_details, 16, 400);
    let limitations = normalize_strings(extract.limitations, 12, 400);
    let evidence = match normalize_grounded_evidence(extract.evidence, source_text, 12, 2000) {
        Ok(evidence) => evidence,
        Err(error) => return Err(error),
    };
    if evidence.len() == 0 {
        return Err("evidence is empty".to_string());
    }
    Ok(ExtractSchema { core_claim, concepts, prerequisites, important_details, limitations, evidence })
}

/// Validates pieces of extracted knowledge in turn (see
/// `validated_units_keyed`), the key of each piece given by position; the
/// first invalid or repeated piece is the error.
pub fn validate_extract_units_keyed(
    units: &Vec<ExtractSchema>,
    source_text: &str,
    keys: &Vec<String>,
) -> (r: Result<Vec<ExtractSchema>, String>)
    requires
        keys@.len() == units@.len(),
    ensures
        match r {
            Ok(v) => validated_units_keyed(extract_views(units@), source_text@, string_views(keys@))
                == Ok::<Seq<ExtractView>, Seq<char>>(extract_views(v@)),
            Err(m) => validated_units_keyed(
                extract_views(units@),
                source_text@,
                string_views(keys@),
            ) == Err::<Seq<ExtractView>, Seq<char>>(m@),
        },
{
    let ghost uv = extract_views(units@);
    let ghost kv = string_views(keys@);
    let n = units.len();
    let mut validated: Vec<ExtractSchema> = Vec::new();
    let mut seen: Vec<String> = Vec::new();
    let mut i: usize = 0;
    assert(uv.take(0) =~= Seq::<ExtractView>::empty());
    assert(extract_views(validated@) =~= Seq::<ExtractView>::empty());
    assert(string_views(seen@) =~= kv.take(0));
    while i < n
        invariant
            n == units@.len(),
            n == keys@.len(),
            uv == extract_views(units@),
            kv == string_views(keys@),
            i <= n,
            validated_units_keyed(uv.take(i as int), source_text@, kv) == Ok::<
                Seq<ExtractView>,
                Seq<char>,
            >(extract_views(validated@)),
            string_views(seen@) == kv.take(i as int),
        decreases n - i,
    {
        proof {
            let post = uv.take(i + 1);
            assert(post.drop_last() =~= uv.take(i as int));
            assert(post.last() == units@[i as int]@);
        }
        let e0 = clone_extract(&units[i]);
        assert(e0@ == uv.take(i + 1).last());
        let extract = match validate_extract(e0, source_text) {
            Ok(extract) => extract,
            Err(error) => {
                proof {
                    lemma_validated_units_keyed_err_prefix(uv, source_text@, kv, i + 1);
                }
                return Err(error);
            },
        };
        assert(kv[i as int] == keys@[i as int]@);
        if contains_string(&seen, &keys[i]) {
            proof {
                assert(uv.take(i + 1).len() - 1 == i);
                lemma_validated_units_keyed_err_prefix(uv, source_text@, kv, i + 1);
            }
            return Err("knowledge_units contains duplicate core_claim values".to_string());
        }
        let ghost before = extract_views(validated@);
        validated.push(extract);
        seen.push(keys[i].clone());
        assert(extract_views(validated@) =~= before.push(validated@.last()@));
        assert(kv.take(i + 1) =~= kv.take(i as int).push(kv[i as int]));
        assert(string_views(seen@) =~= kv.take(i + 1));
        i = i + 1;
    }
    assert(uv.take(n as int) =~= uv);
    Ok(validated)
}

/// Validates extracted knowledge (see `validated_extract_batch`): each
/// piece is keyed by its trimmed claim, lowercased, and validated by
/// `validate_extract_units_keyed`.
pub fn validate_extract_batch(
    batch: ExtractBatchSchema,
    source_text: &str,
    max_units: usize,
) -> (r: Result<ExtractBatchSchema, String>)
    ensures
        match r {
            Ok(b) => validated_extract_batch(
                extract_views(batch.knowledge_units@),
                source_text@,
                max_units as nat,
            ) == Ok::<Seq<ExtractView>, Seq<char>>(extract_views(b.knowledge_units@)),
            Err(m) => validated_extract_batch(
                extract_views(batch.knowledge_units@),
                source_text@,
                max_units as nat,
            ) == Err::<Seq<ExtractView>, Seq<char>>(m@),
        },
{
    let units = batch.knowledge_units;
    let ghost uv = extract_views(units@);
    let n = units.len();
    if n == 0 || n > max_units {
        let mut message = "knowledge_units must contain 1 to ".to_string();
        let number = decimal_string(max_units);
        push_str(&mut message, number.as_str());
        push_str(&mut message, " items");
        return Err(message);
    }
    let mut keys: Vec<String> = Vec::new();
    let mut i: usize = 0;
    while i < n
        invariant
            n == units@.len(),
            uv == extract_views(units@),
            i <= n,
            keys@.len() == i,
            forall|k: int| 0 <= k < i ==> (#[trigger] keys@[k])@ == claim_keys(uv)[k],
        decreases n - i,
    {
        let claim = trim_str(units[i].core_claim.as_str());
        let key = to_lowercase(claim.as_str());
        assert(uv[i as int] == units@[i as int]@);
        keys.push(key);
        i = i + 1;
    }
    proof {
        assert forall|k: int| 0 <= k < uv.len() implies #[trigger] string_views(keys@)[k]
            == claim_keys(uv)[k] by {
            assert(string_views(keys@)[k] == keys@[k]@);
        }
        lemma_validated_units_keyed_is_validated(uv, source_text@, string_views(keys@));
    }
    match validate_extract_units_keyed(&units, source_text, &keys) {
        Ok(v) => Ok(ExtractBatchSchema { knowledge_units: v }),
        Err(e) => Err(e),
    }
}


fn validate_question(question: &QuestionSchema, source_text: &str) -> (r: Result<
    QuestionSchema,
    String,
>)
    ensures
        match r {
            Ok(q) => validated_question(question@, source_text@) == Ok::<QuestionView, Seq<char>>(q@),
            Err(m) => validated_question(question@, source_text@) == Err::<QuestionView, Seq<char>>(
                m@,
            ),
        },
{
    let trimmed_type = trim_str(question.question_type.as_str());
    let question_type = ascii_lowercase(trimmed_type.as_str());
    if !(str_eq(question_type.as_str(), "recall") || str_eq(question_type.as_str(), "explain")
        || str_eq(question_type.as_str(), "apply")) {
        let mut message = "unsupported question type '".to_string();
        push_str(&mut message, question_type.as_str());
        push_char(&mut message, '\'');
        proof {
            reveal_strlit("'");
            assert(message@ =~= "unsupported question type '"@ + question_type@ + "'"@);
        }
        return Err(message);
    }
    let text = trim_str(question.question.as_str());
    let len = char_count(text.as_str());
    if len == 0 || len > 1000 {
        return Err("question text is empty or too long".to_string());
    }
    let reference_points = normalize_strings(clone_strings(&question.reference_points), 12, 500);
    if reference_points.len() == 0 {
        return Err("question reference_points is empty".to_string());
    }
    let evidence = match normalize_grounded_evidence(
        clone_strings(&question.evidence),
        source_text,
        8,
        2000,
    ) {
        Ok(evidence) => evidence,
        Err(error) => return Err(error),
    };
    if evidence.len() == 0 {
        return Err("question evidence is empty".to_string());
    }
    if !(1 <= question.difficulty && question.difficulty <= 3) {
        return Err("question difficulty must be between 1 and 3".to_string());
    }
    Ok(QuestionSchema {
        question_type,
        question: text,
        reference_points,
        evidence,
        difficulty: question.difficulty,
    })
}

/// Validates a question set (see `validated_question_set`).
pub fn validate_question_set(set: QuestionSetSchema, source_text: &str) -> (r: Result<
    QuestionSetSchema,
    String,
>)
    ensures
        match r {
            Ok(s) => validated_question_set(question_views(set.questions@), source_text@) == Ok::<
                Seq<QuestionView>,
                Seq<char>,
            >(question_views(s.questions@)),
            Err(m) => validated_question_set(question_views(set.questions@), source_text@) == Err::<
                Seq<QuestionView>,
                Seq<char>,
            >(m@),
        },
{
    let questions = set.questions;
    let ghost qv = question_views(questions@);
    let n = questions.len();
    if n < 2 || n > 4 {
        return Err("questions must contain 2 to 4 items".to_string());
    }
    let mut validated: Vec<QuestionSchema> = Vec::new();
    let mut i: usize = 0;
    assert(qv.take(0) =~= Seq::<QuestionView>::empty());
    assert(question_views(validated@) =~= Seq::<QuestionView>::empty());
    while i < n
        invariant
            n == questions@.len(),
            2 <= n <= 4,
            qv == question_views(questions@),
            qv == question_views(set.questions@),
            i <= n,
            validated_questions(qv.take(i as int), source_text@) == Ok::<
                Seq<QuestionView>,
                Seq<char>,
            >(question_views(validated@)),
        decreases n - i,
    {
        proof {
            let post = qv.take(i + 1);
            assert(post.drop_last() =~= qv.take(i as int));
            assert(post.last() == questions@[i as int]@);
        }
        let q = match validate_question(&questions[i], source_text) {
            Ok(q) => q,
            Err(error) => {
                proof {
                    assert(validated_questions(qv.take(i + 1), source_text@) == Err::<
                        Seq<QuestionView>,
                        Seq<char>,
                    >(error@));
                    lemma_validated_questions_err_prefix(qv, source_text@, i + 1);
                }
                return Err(error);
            },
        };
        let ghost before = question_views(validated@);
        validated.push(q);
        assert(question_views(validated@) =~= before.push(validated@.last()@));
        i = i + 1;
    }
    assert(qv.take(n as int) =~= qv);
    Ok(QuestionSetSchema { questions: validated })
}

/// Validates a question batch (see `validated_question_batch`): exactly one
/// valid entry per piece of knowledge, returned in index order.
pub fn validate_question_batch(
    batch: QuestionBatchSchema,
    expected_units: usize,
    source_text: &str,
) -> (r: Result<QuestionBatchSchema, String>)
    ensures
        match r {
            Ok(b) => validated_question_batch(
                unit_views(batch.knowledge_units@),
                expected_units as int,
                source_text@,
            ) == Ok::<Seq<QuestionUnitView>, Seq<char>>(unit_views(b.knowledge_units@)),
            Err(m) => validated_question_batch(
                unit_views(batch.knowledge_units@),
                expected_units as int,
                source_text@,
            ) == Err::<Seq<QuestionUnitView>, Seq<char>>(m@),
        },
        r matches Ok(b) ==> b.knowledge_units@.len() == expected_units && forall|k: int|
            0 <= k < expected_units ==> (#[trigger] b.knowledge_units@[k]).knowledge_index == k,
{
    let units = batch.knowledge_units;
    let ghost uv = unit_views(units@);
    let n = units.len();
    if expected_units == 0 || n != expected_units {
        return Err("question batch must contain exactly one entry per knowledge unit".to_string());
    }
    let mut validated: Vec<QuestionBatchUnitSchema> = Vec::new();
    let mut i: usize = 0;
    assert(uv.take(0) =~= Seq::<QuestionUnitView>::empty());
    assert(unit_views(validated@) =~= Seq::<QuestionUnitView>::empty());
    while i < n
        invariant
            n == units@.len(),
            n == expected_units,
            n > 0,
            uv == unit_views(units@),
            uv == unit_views(batch.knowledge_units@),
            i <= n,
            validated@.len() == i,
            validated_question_units(uv.take(i as int), expected_units as int, source_text@)
                == Ok::<Seq<QuestionUnitView>, Seq<char>>(unit_views(validated@)),
        decreases n - i,
    {
        proof {
            let post = uv.take(i + 1);
            assert(post.drop_last() =~= uv.take(i as int));
            assert(post.last() == units@[i as int]@);
        }
        let index = units[i].knowledge_index;
        let mut duplicate = false;
        let mut j: usize = 0;
        while j < i
            invariant
                i <= n,
                validated@.len() == i,
                j <= i,
                !duplicate ==> forall|k: int| 0 <= k < j ==> validated@[k].knowledge_index != index,
                duplicate ==> exists|k: int| 0 <= k < i && validated@[k].knowledge_index == index,
            decreases i - j,
        {
            if validated[j].knowledge_index == index {
                duplicate = true;
            }
            j = j + 1;
        }
        if index >= expected_units || duplicate {
            proof {
                let done = unit_views(validated@);
                if duplicate {
                    let k = choose|k: int| 0 <= k < i && validated@[k].knowledge_index == index;
                    assert(done[k].knowledge_index == index as int);
                }
                assert(validated_question_units(uv.take(i + 1), expected_units as int, source_text@)
                    is Err);
                lemma_validated_question_units_err_prefix(
                    uv,
                    expected_units as int,
                    source_text@,
                    i + 1,
                );
            }
            return Err("question batch contains an invalid or duplicate knowledge_index".to_string());
        }
        proof {
            let done = unit_views(validated@);
            assert forall|k: int| 0 <= k < done.len() implies #[trigger] done[k].knowledge_index
                != index as int by {
                assert(done[k] == validated@[k]@);
            }
        }
        let set = QuestionSetSchema { questions: clone_questions(&units[i].questions) };
        let checked = match validate_question_set(set, source_text) {
            Ok(checked) => checked,
            Err(error) => {
                proof {
                    assert(validated_question_units(uv.take(i + 1), expected_units as int, source_text@)
                        == Err::<Seq<QuestionUnitView>, Seq<char>>(error@));
                    lemma_validated_question_units_err_prefix(
                        uv,
                        expected_units as int,
                        source_text@,
                        i + 1,
                    );
                }
                return Err(error);
            },
        };
        let ghost before = unit_views(validated@);
        validated.push(QuestionBatchUnitSchema { knowledge_index: index, questions: checked.questions });
        assert(unit_views(validated@) =~= before.push(validated@.last()@));
        i = i + 1;
    }
    assert(uv.take(n as int) =~= uv);
    let ghost vs = unit_views(validated@);
    proof {
        lemma_validated_units_distinct(uv, expected_units as int, source_text@);
    }
    let mut ordered: Vec<QuestionBatchUnitSchema> = Vec::new();
    let mut k: usize = 0;
    while k < n
        invariant
            n == validated@.len(),
            n == expected_units,
            n > 0,
            uv.len() == n,
            uv == unit_views(batch.knowledge_units@),
            vs == unit_views(validated@),
            validated_question_units(uv, expected_units as int, source_text@) == Ok::<
                Seq<QuestionUnitView>,
                Seq<char>,
            >(vs),
            forall|a: int, b: int|
                0 <= a < b < vs.len() ==> #[trigger] vs[a].knowledge_index
                    != #[trigger] vs[b].knowledge_index,
            k <= n,
            forall|m: int| 0 <= m < k ==> #[trigger] has_index(vs, m),
            ordered@.len() == k,
            forall|m: int| 0 <= m < k ==> (#[trigger] ordered@[m]).knowledge_index == m,
            unit_views(ordered@) == by_index(vs, expected_units as int).take(k as int),
        decreases n - k,
    {
        let mut found: usize = n;
        let mut j: usize = 0;
        while j < n
            invariant
                n == validated@.len(),
                vs == unit_views(validated@),
                j <= n,
                found <= n,
                found == n ==> forall|m: int| 0 <= m < j ==> validated@[m].knowledge_index != k,
                found < n ==> validated@[found as int].knowledge_index == k,
            decreases n - j,
        {
            if found == n && validated[j].knowledge_index == k {
                found = j;
            }
            j = j + 1;
        }
        if found == n {
            proof {
                assert forall|m: int| 0 <= m < vs.len() implies #[trigger] vs[m].knowledge_index
                    != k as int by {
                    assert(vs[m] == validated@[m]@);
                }
                assert(!has_index(vs, k as int));
                assert(!covers_indices(vs, expected_units as int));
            }
            return Err("question batch is missing a knowledge_index".to_string());
        }
        proof {
            assert(vs[found as int] == validated@[found as int]@);
            assert(0 <= found < vs.len() && vs[found as int].knowledge_index == k as int);
            assert(has_index(vs, k as int));
            let c = choose|c: int| 0 <= c < vs.len() && vs[c].knowledge_index == k as int;
            assert(c == found as int);
        }
        ordered.push(
            QuestionBatchUnitSchema {
                knowledge_index: k,
                questions: clone_questions(&validated[found].questions),
            },
        );
        proof {
            let c = choose|c: int| 0 <= c < vs.len() && vs[c].knowledge_index == k as int;
            assert(by_index(vs, expected_units as int)[k as int] == vs[c]);
            assert(unit_views(ordered@)[k as int] == ordered@[k as int]@);
            assert(ordered@[k as int]@ == vs[found as int]);
            assert(unit_views(ordered@).drop_last() =~= unit_views(ordered@.drop_last()));
        }
        assert(unit_views(ordered@) =~= by_index(vs, expected_units as int).take(k + 1));
        assert(ordered@[k as int].knowledge_index == k);
        k = k + 1;
    }
    assert(by_index(vs, expected_units as int).take(n as int) =~= by_index(vs, expected_units as int));
    Ok(QuestionBatchSchema { knowledge_units: ordered })
}

/// How many pieces of knowledge may be extracted from a source of this size.
pub fn extraction_unit_limit(source_text: &str) -> (r: usize)
    ensures
        r == unit_limit(source_text@.len() as int),
{
    let n = char_count(source_text);
    if n <= 2500 {
        4
    } else if n <= 7000 {
        8
    } else {
        12
    }
}

/// A short fallback claim (see `fallback_claim`).
pub fn summarize_fallback_claim(value: &str, max_chars: usize) -> (r: String)
    ensures
        r@ == fallback_claim(value@, max_chars as int),
{
    let normalized = collapse_whitespace(value);
    let n = char_count(normalized.as_str());
    let mut claim = take_str(normalized.as_str(), max_chars);
    if n > max_chars {
        push_char(&mut claim, '…');
    }
    claim
}

fn last_boundary_in(chars: &Vec<char>, lo: usize, hi: usize) -> (r: Option<usize>)
    requires
        lo <= hi <= chars@.len(),
    ensures
        match r {
            Some(p) => last_boundary(chars@, lo as int, hi as int) == Some(p as int) && lo <= p
                < hi,
            None => last_boundary(chars@, lo as int, hi as int) is None,
        },
{
    proof {
        lemma_last_boundary_range(chars@, lo as int, hi as int);
    }
    let mut p = hi;
    while p > lo
        invariant
            lo <= p <= hi <= chars@.len(),
            last_boundary(chars@, lo as int, hi as int) == last_boundary(chars@, lo as int, p as int),
        decreases p - lo,
    {
        let c = chars[p - 1];
        if c == '\n' || c == '。' || c == '！' || c == '？' || c == '；' || c == ';' {
            return Some(p - 1);
        }
        p = p - 1;
    }
    None
}

/// Splits a long source into chunks of at most `target_chars` characters,
/// ending each chunk after a sentence boundary where one lies in the second
/// half of its span, and dropping chunks that are only whitespace (see
/// `source_chunks`).
pub fn split_source_text(source_text: &str, target_chars: usize) -> (r: Vec<String>)
    ensures
        string_views(r@) == source_chunks(source_text@, target_chars as int),
{
    let chars = chars_of(source_text);
    let len = chars.len();
    if len <= target_chars {
        let whole = string_from(chars.as_slice());
        let r = vec![whole];
        assert(string_views(r@) =~= seq![source_text@]);
        return r;
    }
    let ghost s = chars@;
    let mut chunks: Vec<String> = Vec::new();
    let mut start: usize = 0;
    assert(string_views(chunks@) + source_chunks_from(s, 0, target_chars as int) =~= source_chunks_from(
        s,
        0,
        target_chars as int,
    ));
    while start < len
        invariant
            len == chars@.len(),
            s == chars@,
            start <= len,
            string_views(chunks@) + source_chunks_from(s, start as int, target_chars as int)
                == source_chunks_from(s, 0, target_chars as int),
        decreases len - start,
    {
        let hard = if target_chars >= len - start {
            len
        } else {
            start + target_chars
        };
        let mut end = hard;
        if hard < len {
            let soft = start + target_chars / 2;
            match last_boundary_in(&chars, soft, hard) {
                Some(p) => {
                    end = p + 1;
                },
                None => {},
            }
        }
        if end <= start {
            end = if hard > start + 1 {
                hard
            } else {
                start + 1
            };
        }
        assert(end == chunk_end(s, start as int, target_chars as int));
        let chunk = string_from_range(chars.as_slice(), start, end);
        let trimmed = trim_str(chunk.as_str());
        let ghost rest = source_chunks_from(s, end as int, target_chars as int);
        if char_count(trimmed.as_str()) > 0 {
            chunks.push(chunk);
            assert(string_views(chunks@) =~= string_views(chunks@.drop_last()).push(chunk@));
            assert(string_views(chunks@.drop_last()) + (seq![chunk@] + rest) =~= string_views(chunks@) + rest);
        }
        start = end;
    }
    assert(source_chunks_from(s, start as int, target_chars as int) =~= Seq::<Seq<char>>::empty());
    assert(string_views(chunks@) + Seq::<Seq<char>>::empty() =~= string_views(chunks@));
    chunks
}

fn empty_extract_of(claim: String, evidence: String) -> (r: ExtractSchema)
    ensures
        r@ == empty_extract(claim@, evidence@),
{
    let v = vec![evidence];
    let r = ExtractSchema {
        core_claim: claim,
        concepts: Vec::new(),
        prerequisites: Vec::new(),
        important_details: Vec::new(),
        limitations: Vec::new(),
        evidence: v,
    };
    assert(r@.concepts =~= Seq::<Seq<char>>::empty());
    assert(r@.prerequisites =~= Seq::<Seq<char>>::empty());
    assert(r@.important_details =~= Seq::<Seq<char>>::empty());
    assert(r@.limitations =~= Seq::<Seq<char>>::empty());
    assert(r@.evidence =~= seq![evidence@]);
    r
}

/// One fallback piece of knowledge per chunk (see `fallback_keyed`), the
/// key of each chunk's claim given by position: blank chunks, empty claims
/// and claims whose key repeats a kept one are skipped, at most `max`.
pub fn fallback_units_with_keys(chunks: &Vec<String>, keys: &Vec<String>, max: usize) -> (r: Vec<
    ExtractSchema,
>)
    requires
        keys@.len() == chunks@.len(),
    ensures
        extract_views(r@) == keyed_units(
            fallback_keyed(string_views(chunks@), string_views(keys@), max as int),
        ),
{
    let ghost cs = string_views(chunks@);
    let ghost kv = string_views(keys@);
    let mut units: Vec<ExtractSchema> = Vec::new();
    let mut seen: Vec<String> = Vec::new();
    let n = chunks.len();
    let mut i: usize = 0;
    assert(cs.take(0) =~= Seq::<Seq<char>>::empty());
    assert(extract_views(units@) =~= Seq::<ExtractView>::empty());
    while i < n
        invariant
            n == chunks@.len(),
            n == keys@.len(),
            cs == string_views(chunks@),
            kv == string_views(keys@),
            i <= n,
            extract_views(units@) == keyed_units(fallback_keyed(cs.take(i as int), kv, max as int)),
            string_views(seen@) == fallback_keyed(cs.take(i as int), kv, max as int).map_values(
                |p: (ExtractView, Seq<char>)| p.1,
            ),
        decreases n - i,
    {
        let ghost done = fallback_keyed(cs.take(i as int), kv, max as int);
        proof {
            let post = cs.take(i + 1);
            assert(post.drop_last() =~= cs.take(i as int));
            assert(post.len() - 1 == i);
            assert(post[i as int] == chunks@[i as int]@);
            assert(kv[i as int] == keys@[i as int]@);
        }
        if units.len() < max {
            let evidence = trim_str(chunks[i].as_str());
            if char_count(evidence.as_str()) > 0 {
                let claim = summarize_fallback_claim(evidence.as_str(), 180);
                let seen_before = contains_string(&seen, &keys[i]);
                proof {
                    let ks = done.map_values(|p: (ExtractView, Seq<char>)| p.1);
                    if seen_before {
                        let k = choose|k: int| 0 <= k < ks.len() && ks[k] == kv[i as int];
                        assert(done[k].1 == kv[i as int]);
                    } else {
                        assert forall|k: int| 0 <= k < done.len() implies (#[trigger] done[k]).1
                            != kv[i as int] by {
                            assert(ks[k] == done[k].1);
                        }
                    }
                }
                if char_count(claim.as_str()) > 0 && !seen_before {
                    let ghost before_units = extract_views(units@);
                    let ghost before_seen = string_views(seen@);
                    assert(units@.len() == extract_views(units@).len());
                    assert(done.len() == keyed_units(done).len());
                    let ghost ev = evidence@;
                    let ghost cl = claim@;
                    units.push(empty_extract_of(claim, evidence));
                    seen.push(keys[i].clone());
                    proof {
                        let post = cs.take(i + 1);
                        assert(post.drop_last() =~= cs.take(i as int));
                        assert(ev == trim(post[i as int]));
                        assert(cl == fallback_claim(ev, 180));
                        assert(units@.last()@ == empty_extract(cl, ev));
                        let after = fallback_keyed(cs.take(i + 1), kv, max as int);
                        assert(after == done.push((units@.last()@, kv[i as int])));
                        assert(extract_views(units@) =~= before_units.push(units@.last()@));
                        assert(keyed_units(after) =~= keyed_units(done).push(units@.last()@));
                        assert(string_views(seen@) =~= before_seen.push(kv[i as int]));
                        assert(after.map_values(|p: (ExtractView, Seq<char>)| p.1) =~= done.map_values(
                            |p: (ExtractView, Seq<char>)| p.1,
                        ).push(kv[i as int]));
                    }
                }
            }
        }
        i = i + 1;
    }
    assert(cs.take(n as int) =~= cs);
    units
}

/// Deterministic extraction used when no model output could be validated:
/// one piece of knowledge per chunk of the trimmed source (see
/// `fallback_extract_units`), validated like model output.
pub fn fallback_extract_batch(source_text: &str, max_units: usize) -> (r: Result<
    ExtractBatchSchema,
    String,
>)
    ensures
        trim(source_text@).len() == 0 ==> (r matches Err(m) && m@ == "source text is empty"@),
        trim(source_text@).len() > 0 ==> r is Ok,
        trim(source_text@).len() > 0 ==> match r {
            Ok(b) => validated_extract_batch(
                fallback_extract_units(source_text@, max_units as int),
                trim(source_text@),
                if max_units < 1 {
                    1
                } else {
                    max_units as nat
                },
            ) == Ok::<Seq<ExtractView>, Seq<char>>(extract_views(b.knowledge_units@)),
            Err(m) => validated_extract_batch(
                fallback_extract_units(source_text@, max_units as int),
                trim(source_text@),
                if max_units < 1 {
                    1
                } else {
                    max_units as nat
                },
            ) == Err::<Seq<ExtractView>, Seq<char>>(m@),
        },
        r matches Ok(b) ==> 1 <= b.knowledge_units@.len() <= if max_units < 1 {
            1
        } else {
            max_units as int
        } && forall|k: int|
            0 <= k < b.knowledge_units@.len() ==> (#[trigger] b.knowledge_units@[k])@.core_claim.len()
                > 0 && forall|j: int|
                0 <= j < b.knowledge_units@[k]@.evidence.len() ==> contains_seq(
                    source_text@,
                    #[trigger] b.knowledge_units@[k]@.evidence[j],
                ),
{
    let source = trim_str(source_text);
    if char_count(source.as_str()) == 0 {
        return Err("source text is empty".to_string());
    }
    let max = if max_units < 1 {
        1
    } else {
        max_units
    };
    let chunks = split_source_text(source.as_str(), 650);
    let ghost cs = string_views(chunks@);
    let n = chunks.len();
    let mut keys: Vec<String> = Vec::new();
    let mut j: usize = 0;
    while j < n
        invariant
            n == chunks@.len(),
            cs == string_views(chunks@),
            j <= n,
            keys@.len() == j,
            forall|k: int| 0 <= k < j ==> (#[trigger] keys@[k])@ == fallback_claim_keys(cs)[k],
        decreases n - j,
    {
        let evidence = trim_str(chunks[j].as_str());
        let claim = summarize_fallback_claim(evidence.as_str(), 180);
        let key = to_lowercase(claim.as_str());
        assert(cs[j as int] == chunks@[j as int]@);
        keys.push(key);
        j = j + 1;
    }
    proof {
        assert forall|k: int| 0 <= k < cs.len() implies #[trigger] string_views(keys@)[k]
            == fallback_claim_keys(cs)[k] by {
            assert(string_views(keys@)[k] == keys@[k]@);
        }
        lemma_fallback_keyed_is_fallback(cs, string_views(keys@), max as int);
    }
    let mut units = fallback_units_with_keys(&chunks, &keys, max);
    if units.len() == 0 {
        let claim = summarize_fallback_claim(source.as_str(), 180);
        let evidence = take_str(source.as_str(), 1200);
        units.push(empty_extract_of(claim, evidence));
        assert(extract_views(units@) =~= seq![units@[0]@]);
    }
    let ghost uv = extract_views(units@);
    let total = char_count(source.as_str());
    let r = validate_extract_batch(ExtractBatchSchema { knowledge_units: units }, source.as_str(), max);
    proof {
        lemma_fallback_extract_valid(source_text@, max_units as int);
        if r is Ok {
            let b = r->Ok_0;
            lemma_validated_units_grounded(uv, source@);
            let vs = extract_views(b.knowledge_units@);
            assert forall|k: int| 0 <= k < b.knowledge_units@.len() implies (
            #[trigger] b.knowledge_units@[k])@.core_claim.len() > 0 && forall|j: int|
                0 <= j < b.knowledge_units@[k]@.evidence.len() ==> contains_seq(
                    source_text@,
                    #[trigger] b.knowledge_units@[k]@.evidence[j],
                ) by {
                assert(vs[k] == b.knowledge_units@[k]@);
                assert forall|j: int| 0 <= j < b.knowledge_units@[k]@.evidence.len() implies contains_seq(
                    source_text@,
                    #[trigger] b.knowledge_units@[k]@.evidence[j],
                ) by {
                    assert(contains_seq(source@, vs[k].evidence[j]));
                    lemma_contains_in_trim(source_text@, vs[k].evidence[j]);
                }
            }
        }
    }
    r
}

fn fallback_question_unit(unit: &ExtractSchema, index: usize, source_text: &str) -> (r:
    QuestionBatchUnitSchema)
    ensures
        r@ == fallback_question_units(seq![unit@], source_text@)[0].update_index(index as int),
{
    let evidence = if unit.evidence.len() > 0 {
        unit.evidence[0].clone()
    } else {
        let t = trim_str(source_text);
        take_str(t.as_str(), 800)
    };
    let reference = summarize_fallback_claim(unit.core_claim.as_str(), 320);
    let mut explain = "请用自己的话解释这条知识：".to_string();
    push_str(&mut explain, reference.as_str());
    let first = QuestionSchema {
        question_type: "explain".to_string(),
        question: explain,
        reference_points: vec![reference.clone()],
        evidence: vec![evidence.clone()],
        difficulty: 2,
    };
    let second = QuestionSchema {
        question_type: "recall".to_string(),
        question: "不看原文时，你能复述这条知识的核心结论吗？".to_string(),
        reference_points: vec![reference],
        evidence: vec![evidence],
        difficulty: 1,
    };
    let r = QuestionBatchUnitSchema { knowledge_index: index, questions: vec![first, second] };
    proof {
        let expected = fallback_question_units(seq![unit@], source_text@)[0].update_index(index as int);
        assert(seq![unit@][0] == unit@);
        assert(r@.questions[0].reference_points =~= expected.questions[0].reference_points);
        assert(r@.questions[0].evidence =~= expected.questions[0].evidence);
        assert(r@.questions[1].reference_points =~= expected.questions[1].reference_points);
        assert(r@.questions[1].evidence =~= expected.questions[1].evidence);
        assert(r@.questions =~= expected.questions);
    }
    r
}

/// Deterministic questions used when no model output could be validated:
/// an explain and a recall question per piece of knowledge (see
/// `fallback_question_units`), validated like model output.
pub fn fallback_question_batch(units: &[ExtractSchema], source_text: &str) -> (r: Result<
    QuestionBatchSchema,
    String,
>)
    ensures
        match r {
            Ok(b) => validated_question_batch(
                fallback_question_units(units@.map_values(|e: ExtractSchema| e@), source_text@),
                units@.len() as int,
                source_text@,
            ) == Ok::<Seq<QuestionUnitView>, Seq<char>>(unit_views(b.knowledge_units@)),
            Err(m) => validated_question_batch(
                fallback_question_units(units@.map_values(|e: ExtractSchema| e@), source_text@),
                units@.len() as int,
                source_text@,
            ) == Err::<Seq<QuestionUnitView>, Seq<char>>(m@),
        },
        r matches Ok(b) ==> b.knowledge_units@.len() == units@.len() && forall|k: int|
            0 <= k < b.knowledge_units@.len() ==> (#[trigger] b.knowledge_units@[k])@.questions.len()
                == 2 && forall|q: int, j: int|
                0 <= q < 2 && 0 <= j < b.knowledge_units@[k]@.questions[q].evidence.len()
                    ==> contains_seq(
                    source_text@,
                    #[trigger] b.knowledge_units@[k]@.questions[q].evidence[j],
                ),
{
    let ghost uv = units@.map_values(|e: ExtractSchema| e@);
    let ghost target = fallback_question_units(uv, source_text@);
    let mut knowledge_units: Vec<QuestionBatchUnitSchema> = Vec::new();
    let n = units.len();
    let mut i: usize = 0;
    while i < n
        invariant
            n == units@.len(),
            uv == units@.map_values(|e: ExtractSchema| e@),
            target == fallback_question_units(uv, source_text@),
            i <= n,
            knowledge_units@.len() == i,
            unit_views(knowledge_units@) == target.take(i as int),
        decreases n - i,
    {
        let unit = fallback_question_unit(&units[i], i, source_text);
        proof {
            assert(uv[i as int] == units@[i as int]@);
            assert(fallback_question_units(seq![units@[i as int]@], source_text@)[0].update_index(
                i as int,
            ) == target[i as int]);
        }
        knowledge_units.push(unit);
        assert(unit_views(knowledge_units@) =~= target.take(i + 1));
        i = i + 1;
    }
    assert(target.take(n as int) =~= target);
    let total = char_count(source_text);
    let r = validate_question_batch(QuestionBatchSchema { knowledge_units }, n, source_text);
    proof {
        if r is Ok {
            let b = r->Ok_0;
            lemma_validated_question_batch_grounded(target, n as int, source_text@);
            let rv = unit_views(b.knowledge_units@);
            assert forall|k: int| 0 <= k < b.knowledge_units@.len() implies (
            #[trigger] b.knowledge_units@[k])@.questions.len() == 2 && forall|q: int, j: int|
                0 <= q < 2 && 0 <= j < b.knowledge_units@[k]@.questions[q].evidence.len()
                    ==> contains_seq(
                    source_text@,
                    #[trigger] b.knowledge_units@[k]@.questions[q].evidence[j],
                ) by {
                assert(rv[k] == b.knowledge_units@[k]@);
                let c = choose|c: int|
                    0 <= c < target.len() && rv[k].questions.len() == target[c].questions.len();
                assert(target[c].questions.len() == 2);
            }
        }
    }
    r
}


/// Normalized strings are trimmed values of the input, each 1 to
/// `max_chars` characters, none twice, at most `max_items` of them.
pub proof fn lemma_normalized_strings_props(values: Seq<Seq<char>>, max_items: int, max_chars: int)
    requires
        0 <= max_items,
    ensures
        normalized_strings(values, max_items, max_chars).len() <= max_items,
        normalized_strings(values, max_items, max_chars).no_duplicates(),
        forall|k: int|
            0 <= k < normalized_strings(values, max_items, max_chars).len() ==> 0 < (
            #[trigger] normalized_strings(values, max_items, max_chars)[k]).len() <= max_chars
                && exists|j: int|
                0 <= j < values.len() && trim(values[j]) == normalized_strings(
                    values,
                    max_items,
                    max_chars,
                )[k],
    decreases values.len(),
{
    if values.len() > 0 {
        let p = values.drop_last();
        lemma_normalized_strings_props(p, max_items, max_chars);
        let r = normalized_strings(p, max_items, max_chars);
        let n = normalized_strings(values, max_items, max_chars);
        if n.len() > r.len() {
            assert(n == r.push(n.last()));
            assert forall|a: int, b: int| 0 <= a < b < n.len() implies n[a] != n[b] by {
                assert(n[a] == r[a]);
                if b < r.len() {
                    assert(n[b] == r[b]);
                }
            }
            assert forall|k: int| 0 <= k < n.len() implies 0 < (#[trigger] n[k]).len() <= max_chars
                && exists|j: int| 0 <= j < values.len() && trim(values[j]) == n[k] by {
                if k < r.len() {
                    assert(n[k] == r[k]);
                    let j = choose|j: int| 0 <= j < p.len() && trim(p[j]) == r[k];
                    assert(values[j] == p[j]);
                } else {
                    assert(trim(values[values.len() - 1]) == n[k]);
                }
            }
        } else {
            assert(n == r);
            assert forall|k: int| 0 <= k < n.len() implies 0 < (#[trigger] n[k]).len() <= max_chars
                && exists|j: int| 0 <= j < values.len() && trim(values[j]) == n[k] by {
                let j = choose|j: int| 0 <= j < p.len() && trim(p[j]) == r[k];
                assert(values[j] == p[j]);
            }
        }
    }
}


// ---------------------------------------------------------------------------
// Merging the question batches of one source
// ---------------------------------------------------------------------------

pub open spec fn batch_views(v: Seq<Vec<QuestionBatchUnitSchema>>) -> Seq<Seq<QuestionUnitView>> {
    v.map_values(|b: Vec<QuestionBatchUnitSchema>| unit_views(b@))
}

/// A batch's units with their indices moved up by `base`.
pub open spec fn shifted(units: Seq<QuestionUnitView>, base: int) -> Seq<QuestionUnitView> {
    units.map_values(|u: QuestionUnitView| u.update_index(u.knowledge_index + base))
}

/// The units of all batches in order; questions are asked four pieces of
/// knowledge at a time, so each batch's indices count from four times its
/// position.
pub open spec fn offset_units(batches: Seq<Seq<QuestionUnitView>>) -> Seq<QuestionUnitView>
    decreases batches.len(),
{
    if batches.len() == 0 {
        Seq::empty()
    } else {
        offset_units(batches.drop_last()) + shifted(batches.last(), 4 * (batches.len() - 1))
    }
}

/// The units cover the pieces of knowledge `0..n`, each exactly once.
pub open spec fn covers_exactly(units: Seq<QuestionUnitView>, n: int) -> bool {
    &&& forall|j: int| 0 <= j < units.len() ==> 0 <= #[trigger] units[j].knowledge_index < n
    &&& forall|a: int, b: int|
        0 <= a < b < units.len() ==> #[trigger] units[a].knowledge_index
            != #[trigger] units[b].knowledge_index
    &&& forall|k: int| 0 <= k < n ==> #[trigger] has_index(units, k)
}

/// `x` is the unit of the piece of knowledge `k`.
pub open spec fn unit_for(units: Seq<QuestionUnitView>, k: int, x: QuestionUnitView) -> bool {
    x.knowledge_index == k && exists|j: int| 0 <= j < units.len() && #[trigger] units[j] == x
}

spec fn slot_holds(slots: Seq<Option<QuestionBatchUnitSchema>>, i: int, v: QuestionUnitView) -> bool {
    match slots[i] {
        Some(u) => u@ == v,
        None => false,
    }
}

proof fn lemma_offset_prefix(batches: Seq<Seq<QuestionUnitView>>, b: int)
    requires
        0 <= b <= batches.len(),
    ensures
        offset_units(batches.take(b)).len() <= offset_units(batches).len(),
        forall|j: int|
            0 <= j < offset_units(batches.take(b)).len() ==> #[trigger] offset_units(batches)[j]
                == offset_units(batches.take(b))[j],
    decreases batches.len() - b,
{
    if b < batches.len() {
        lemma_offset_prefix(batches, b + 1);
        let t1 = batches.take(b + 1);
        assert(t1.drop_last() =~= batches.take(b));
        assert(offset_units(t1) == offset_units(batches.take(b)) + shifted(t1.last(), 4 * b));
    } else {
        assert(batches.take(b) =~= batches);
    }
}

/// The questions of all batches of one source, one entry per piece of
/// knowledge in order (see `offset_units`); when the batches do not cover
/// the `expected` pieces each exactly once, that is an error.
#[verifier::spinoff_prover]
pub fn merge_question_batches(batches: &Vec<Vec<QuestionBatchUnitSchema>>, expected: usize) -> (r:
    Result<Vec<QuestionBatchUnitSchema>, String>)
    requires
        4 * batches@.len() <= usize::MAX,
    ensures
        match r {
            Ok(v) => covers_exactly(offset_units(batch_views(batches@)), expected as int) && v@.len()
                == expected && forall|k: int|
                0 <= k < expected ==> unit_for(
                    offset_units(batch_views(batches@)),
                    k,
                    #[trigger] unit_views(v@)[k],
                ),
            Err(e) => e@ == "question batches did not cover every extracted knowledge unit"@
                && !covers_exactly(offset_units(batch_views(batches@)), expected as int),
        },
{
    let ghost bv = batch_views(batches@);
    let ghost us = offset_units(bv);
    let mut slots: Vec<Option<QuestionBatchUnitSchema>> = Vec::new();
    let mut s: usize = 0;
    while s < expected
        invariant
            s <= expected,
            slots@.len() == s,
            forall|i: int| 0 <= i < s ==> slots@[i] is None,
        decreases expected - s,
    {
        slots.push(None);
        s = s + 1;
    }
    let nb = batches.len();
    let mut b: usize = 0;
    let mut base: usize = 0;
    assert(bv.take(0) =~= Seq::<Seq<QuestionUnitView>>::empty());
    while b < nb
        invariant
            nb == batches@.len(),
            4 * nb <= usize::MAX,
            bv == batch_views(batches@),
            us == offset_units(bv),
            b <= nb,
            base == 4 * b,
            slots@.len() == expected,
            forall|j: int|
                0 <= j < offset_units(bv.take(b as int)).len() ==> 0 <= #[trigger] offset_units(
                    bv.take(b as int),
                )[j].knowledge_index < expected,
            forall|j: int|
                0 <= j < offset_units(bv.take(b as int)).len() ==> slot_holds(
                    slots@,
                    offset_units(bv.take(b as int))[j].knowledge_index,
                    #[trigger] offset_units(bv.take(b as int))[j],
                ),
            forall|a: int, c: int|
                0 <= a < c < offset_units(bv.take(b as int)).len() ==> #[trigger] offset_units(
                    bv.take(b as int),
                )[a].knowledge_index != #[trigger] offset_units(bv.take(b as int))[c].knowledge_index,
            forall|i: int|
                0 <= i < expected && #[trigger] slots@[i] is Some ==> exists|j: int|
                    0 <= j < offset_units(bv.take(b as int)).len() && offset_units(
                        bv.take(b as int),
                    )[j].knowledge_index == i,
        decreases nb - b,
    {
        let ghost prefix = offset_units(bv.take(b as int));
        let units = &batches[b];
        let ghost sh = shifted(unit_views(units@), base as int);
        assert(bv[b as int] == unit_views(units@));
        assert(bv.take(b + 1).drop_last() =~= bv.take(b as int));
        assert(offset_units(bv.take(b + 1)) == prefix + sh);
        proof {
            lemma_offset_prefix(bv, b + 1);
        }
        assert forall|i: int|
            0 <= i < expected && #[trigger] slots@[i] is Some implies exists|j: int|
                0 <= j < prefix.len() + 0 && (prefix + sh)[j].knowledge_index == i by {
            let j = choose|j: int| 0 <= j < prefix.len() && prefix[j].knowledge_index == i;
            assert((prefix + sh)[j] == prefix[j]);
        }
        let nu = units.len();
        let mut u: usize = 0;
        while u < nu
            invariant
                nu == units@.len(),
                bv == batch_views(batches@),
                us == offset_units(bv),
                u <= nu,
                slots@.len() == expected,
                sh == shifted(unit_views(units@), base as int),
                offset_units(bv.take(b + 1)) == prefix + sh,
                prefix.len() + sh.len() <= us.len(),
                forall|j: int| 0 <= j < prefix.len() + sh.len() ==> #[trigger] us[j] == (prefix + sh)[j],
                forall|j: int| 0 <= j < prefix.len() + u ==> 0 <= #[trigger] (prefix + sh)[j].knowledge_index < expected,
                forall|j: int|
                    0 <= j < prefix.len() + u ==> slot_holds(
                        slots@,
                        (prefix + sh)[j].knowledge_index,
                        #[trigger] (prefix + sh)[j],
                    ),
                forall|a: int, c: int|
                    0 <= a < c < prefix.len() + u ==> #[trigger] (prefix + sh)[a].knowledge_index
                        != #[trigger] (prefix + sh)[c].knowledge_index,
                forall|i: int|
                    0 <= i < expected && #[trigger] slots@[i] is Some ==> exists|j: int|
                        0 <= j < prefix.len() + u && (prefix + sh)[j].knowledge_index == i,
            decreases nu - u,
        {
            let idx = units[u].knowledge_index;
            let ghost here = prefix.len() + u;
            assert((prefix + sh)[here] == sh[u as int]);
            assert(sh[u as int].knowledge_index == idx + base);
            assert(us[here] == (prefix + sh)[here]);
            if idx >= expected || base >= expected - idx {
                proof {
                    assert(!(0 <= us[here].knowledge_index < expected));
                }
                return Err("question batches did not cover every extracted knowledge unit".to_string());
            }
            let k = idx + base;
            if slots[k].is_some() {
                proof {
                    let j = choose|j: int| 0 <= j < prefix.len() + u && (prefix + sh)[j].knowledge_index == k;
                    assert(us[j] == (prefix + sh)[j]);
                    assert(us[j].knowledge_index == us[here].knowledge_index);
                }
                return Err("question batches did not cover every extracted knowledge unit".to_string());
            }
            let unit = QuestionBatchUnitSchema { knowledge_index: k, questions: clone_questions(&units[u].questions) };
            assert(unit@ == sh[u as int]);
            let ghost before = slots@;
            slots.set(k, Some(unit));
            assert forall|j: int| 0 <= j < prefix.len() + u + 1 implies slot_holds(
                slots@,
                (prefix + sh)[j].knowledge_index,
                #[trigger] (prefix + sh)[j],
            ) by {
                if j < here {
                    assert((prefix + sh)[j].knowledge_index != k);
                }
            }
            assert forall|i: int| 0 <= i < expected && #[trigger] slots@[i] is Some implies exists|j: int|
                0 <= j < prefix.len() + u + 1 && (prefix + sh)[j].knowledge_index == i by {
                if i != k {
                    assert(before[i] is Some);
                } else {
                    assert((prefix + sh)[here].knowledge_index == i);
                }
            }
            u = u + 1;
        }
        assert(offset_units(bv.take(b + 1)) =~= prefix + sh);
        b = b + 1;
        base = base + 4;
    }
    assert(bv.take(nb as int) =~= bv);
    let mut v: Vec<QuestionBatchUnitSchema> = Vec::new();
    let mut i: usize = 0;
    while i < expected
        invariant
            i <= expected,
            slots@.len() == expected,
            us == offset_units(bv),
            bv == batch_views(batches@),
            v@.len() == i,
            forall|j: int| 0 <= j < us.len() ==> 0 <= #[trigger] us[j].knowledge_index < expected,
            forall|j: int| 0 <= j < us.len() ==> slot_holds(slots@, us[j].knowledge_index, #[trigger] us[j]),
            forall|a: int, c: int| 0 <= a < c < us.len() ==> #[trigger] us[a].knowledge_index != #[trigger] us[c].knowledge_index,
            forall|x: int| 0 <= x < expected && #[trigger] slots@[x] is Some ==> exists|j: int| 0 <= j < us.len() && us[j].knowledge_index == x,
            forall|k: int| 0 <= k < i ==> unit_for(us, k, #[trigger] unit_views(v@)[k]),
        decreases expected - i,
    {
        match &slots[i] {
            Some(unit) => {
                let c = QuestionBatchUnitSchema { knowledge_index: unit.knowledge_index, questions: clone_questions(&unit.questions) };
                assert(c@ == unit@);
                let ghost before = v@;
                v.push(c);
                proof {
                    let j = choose|j: int| 0 <= j < us.len() && us[j].knowledge_index == i;
                    assert(slot_holds(slots@, us[j].knowledge_index, us[j]));
                    assert(slots@[i as int] == Some(*unit));
                    assert(unit@ == us[j]);
                    assert(v@[i as int] == c);
                    assert(unit_views(v@)[i as int] == us[j]);
                    assert(unit_for(us, i as int, unit_views(v@)[i as int]));
                    assert forall|k: int| 0 <= k < i + 1 implies unit_for(us, k, #[trigger] unit_views(v@)[k]) by {
                        if k < i {
                            assert(unit_views(v@)[k] == unit_views(before)[k]);
                        }
                    }
                }
            },
            None => {
                proof {
                    if exists|j: int| 0 <= j < us.len() && #[trigger] us[j].knowledge_index == i {
                        let j = choose|j: int| 0 <= j < us.len() && #[trigger] us[j].knowledge_index == i;
                        assert(slots@[us[j].knowledge_index] is Some);
                    }
                    assert(!has_index(us, i as int));
                }
                return Err("question batches did not cover every extracted knowledge unit".to_string());
            },
        }
        i = i + 1;
    }
    assert forall|k: int| 0 <= k < expected implies #[trigger] has_index(us, k) by {
        assert(unit_for(us, k, unit_views(v@)[k]));
        let j = choose|j: int| 0 <= j < us.len() && #[trigger] us[j] == unit_views(v@)[k];
        assert(us[j].knowledge_index == k);
    }
    Ok(v)
}


/// Questions can be asked about a piece of knowledge once its claim is
/// extracted and grounded in evidence.
pub fn check_question_generation(core_claim: &str, evidence_count: usize) -> (r: Result<(), String>)
    ensures
        if trim(core_claim@).len() == 0 {
            r matches Err(e) && e@ == "knowledge extraction has not completed yet"@
        } else if evidence_count == 0 {
            r matches Err(e) && e@ == "knowledge has no grounded evidence for question generation"@
        } else {
            r is Ok
        },
{
    let t = trim_str(core_claim);
    if char_count(t.as_str()) == 0 {
        Err("knowledge extraction has not completed yet".to_string())
    } else if evidence_count == 0 {
        Err("knowledge has no grounded evidence for question generation".to_string())
    } else {
        Ok(())
    }
}

/// A question job runs only on a piece of knowledge whose claim and
/// evidence are extracted.
pub fn check_question_job(core_claim: &str, evidence_count: usize) -> (r: Result<(), String>)
    ensures
        if trim(core_claim@).len() == 0 || evidence_count == 0 {
            r matches Err(e) && e@ == "knowledge extraction is incomplete; cannot generate questions"@
        } else {
            r is Ok
        },
{
    let t = trim_str(core_claim);
    if char_count(t.as_str()) == 0 || evidence_count == 0 {
        Err("knowledge extraction is incomplete; cannot generate questions".to_string())
    } else {
        Ok(())
    }
}

/// The questions of a batch made for one piece of knowledge alone: it must
/// hold exactly one entry, for index 0.
pub fn standalone_questions(batch: QuestionBatchSchema) -> (r: Result<Vec<QuestionSchema>, String>)
    ensures
        match r {
            Ok(qs) => batch.knowledge_units@.len() == 1 && batch.knowledge_units@[0].knowledge_index
                == 0 && question_views(qs@) == question_views(batch.knowledge_units@[0].questions@),
            Err(e) => e@ == "standalone question generation returned an invalid knowledge batch"@
                && !(batch.knowledge_units@.len() == 1 && batch.knowledge_units@[0].knowledge_index
                == 0),
        },
{
    if batch.knowledge_units.len() != 1 || batch.knowledge_units[0].knowledge_index != 0 {
        return Err("standalone question generation returned an invalid knowledge batch".to_string());
    }
    Ok(clone_questions(&batch.knowledge_units[0].questions))
}


/// How a request to start a knowledge job is answered.
#[derive(Clone, Copy, Debug, PartialEq, Eq)]
pub enum JobStart {
    /// The work is already done: the latest completed job answers.
    AlreadyDone,
    /// A job for it is pending or running: that job answers.
    Running,
    /// A new job is started.
    Start,
}

/// Whether a job status is one of a job not yet finished.
pub open spec fn unfinished(status: Seq<char>) -> bool {
    status == "pending"@ || status == "running"@
}

/// A request to internalize a piece of knowledge: done once its inbox item
/// is ready, accepted or ignored, or once it left the captured state and has
/// questions; else the latest job answers while it is unfinished; else a job
/// starts.
pub fn internalize_start(
    inbox_status: &Option<String>,
    knowledge_status: &str,
    question_count: i64,
    latest_job_status: &Option<String>,
) -> (r: JobStart)
    ensures
        r == (if (inbox_status matches Some(s) && (s@ == "ready"@ || s@ == "accepted"@ || s@
            == "ignored"@)) || (knowledge_status@ != "captured"@ && question_count > 0) {
            JobStart::AlreadyDone
        } else if latest_job_status matches Some(s) && unfinished(s@) {
            JobStart::Running
        } else {
            JobStart::Start
        }),
{
    let settled = match inbox_status {
        Some(s) => str_eq(s.as_str(), "ready") || str_eq(s.as_str(), "accepted") || str_eq(
            s.as_str(),
            "ignored",
        ),
        None => false,
    };
    if settled || (!str_eq(knowledge_status, "captured") && question_count > 0) {
        return JobStart::AlreadyDone;
    }
    match latest_job_status {
        Some(s) => if str_eq(s.as_str(), "pending") || str_eq(s.as_str(), "running") {
            JobStart::Running
        } else {
            JobStart::Start
        },
        None => JobStart::Start,
    }
}

/// A request to generate questions: done when there are questions; else the
/// latest job answers when it is an unfinished question job; else a job
/// starts. `latest_job` is the latest job's type and status.
pub fn question_job_start(question_count: usize, latest_job: &Option<(String, String)>) -> (r: JobStart)
    ensures
        r == (if question_count > 0 {
            JobStart::AlreadyDone
        } else if latest_job matches Some((t, s)) && t@ == "question_generation"@ && unfinished(s@) {
            JobStart::Running
        } else {
            JobStart::Start
        }),
{
    if question_count > 0 {
        return JobStart::AlreadyDone;
    }
    match latest_job {
        Some((t, s)) => if str_eq(t.as_str(), "question_generation") && (str_eq(s.as_str(), "pending")
            || str_eq(s.as_str(), "running")) {
            JobStart::Running
        } else {
            JobStart::Start
        },
        None => JobStart::Start,
    }
}

} // verus!
