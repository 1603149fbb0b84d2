//! Answers to review questions and their judging: the judge's feedback is
//! normalized and must rest on the source quotes that were supplied to it.
use vstd::prelude::*;
use crate::internalization::normalized_strings;
use crate::text::{ascii_lower, ascii_lowercase, char_count, str_eq, string_views, trim, trim_str};

verus! {

/// What a judge says of an answer, apart from its score.
#[derive(Clone, Debug)]
pub struct JudgeFeedback {
    pub result: String,
    pub correct_points: Vec<String>,
    pub missing_points: Vec<String>,
    pub wrong_points: Vec<String>,
    pub feedback: String,
    pub evidence: Vec<String>,
}

pub struct JudgeFeedbackView {
    pub result: Seq<char>,
    pub correct_points: Seq<Seq<char>>,
    pub missing_points: Seq<Seq<char>>,
    pub wrong_points: Seq<Seq<char>>,
    pub feedback: Seq<char>,
    pub evidence: Seq<Seq<char>>,
}

impl View for JudgeFeedback {
    type V = JudgeFeedbackView;

    open spec fn view(&self) -> JudgeFeedbackView {
        JudgeFeedbackView {
            result: self.result@,
            correct_points: string_views(self.correct_points@),
            missing_points: string_views(self.missing_points@),
            wrong_points: string_views(self.wrong_points@),
            feedback: self.feedback@,
            evidence: string_views(self.evidence@),
        }
    }
}

/// The judge's verdicts.
pub open spec fn is_verdict(r: Seq<char>) -> bool {
    r == "correct"@ || r == "partial"@ || r == "wrong"@
}

/// The judge's feedback validated: the verdict trimmed and lowercased must
/// be correct, partial or wrong; at most 16 distinct points of each kind of
/// at most 500 characters; feedback trimmed, 1 to 4000 characters; 1 to 8
/// distinct evidence quotes of at most 2000 characters, each one of the
/// supplied quotes. Each failure has its own message.
pub open spec fn judged_feedback(j: JudgeFeedbackView, allowed: Seq<Seq<char>>) -> Result<
    JudgeFeedbackView,
    Seq<char>,
> {
    let result = ascii_lower(trim(j.result));
    let feedback = trim(j.feedback);
    let evidence = normalized_strings(j.evidence, 8, 2000);
    if !is_verdict(result) {
        Err("result must be correct, partial, or wrong"@)
    } else if feedback.len() == 0 || feedback.len() > 4000 {
        Err("feedback is empty or too long"@)
    } else if evidence.len() == 0 {
        Err("judge evidence is empty"@)
    } else if exists|k: int| 0 <= k < evidence.len() && !allowed.contains(#[trigger] evidence[k]) {
        Err("judge evidence is not one of the supplied source quotes"@)
    } else {
        Ok(
            JudgeFeedbackView {
                result,
                correct_points: normalized_strings(j.correct_points, 16, 500),
                missing_points: normalized_strings(j.missing_points, 16, 500),
                wrong_points: normalized_strings(j.wrong_points, 16, 500),
                feedback,
                evidence,
            },
        )
    }
}

/// The first `max_items` distinct values, trimmed, that are not empty and
/// have at most `max_chars` characters, in order.
pub fn normalize_strings(values: Vec<String>, max_items: usize, max_chars: usize) -> (r: Vec<
    String,
>)
    ensures
        string_views(r@) == normalized_strings(
            string_views(values@),
            max_items as int,
            max_chars as int,
        ),
{
    crate::internalization::normalize_strings(values, max_items, max_chars)
}

/// Whether every quote is one of the allowed ones.
fn quotes_allowed(quotes: &Vec<String>, allowed: &[String]) -> (r: bool)
    ensures
        r == forall|k: int|
            0 <= k < quotes@.len() ==> string_views(allowed@).contains(
                #[trigger] string_views(quotes@)[k],
            ),
{
    let ghost av = string_views(allowed@);
    let m = quotes.len();
    let mut i: usize = 0;
    while i < m
        invariant
            m == quotes@.len(),
            av == string_views(allowed@),
            i <= m,
            forall|k: int| 0 <= k < i ==> av.contains(#[trigger] string_views(quotes@)[k]),
        decreases m - i,
    {
        let q = &quotes[i];
        assert(string_views(quotes@)[i as int] == q@);
        let na = allowed.len();
        let mut j: usize = 0;
        let mut found = false;
        while j < na && !found
            invariant
                na == allowed@.len(),
                av == string_views(allowed@),
                j <= na,
                found ==> av.contains(q@),
                !found ==> forall|k: int| 0 <= k < j ==> allowed@[k]@ != q@,
            decreases na - j,
        {
            if str_eq(allowed[j].as_str(), q.as_str()) {
                assert(av[j as int] == q@);
                found = true;
            }
            j = j + 1;
        }
        if !found {
            proof {
                if av.contains(q@) {
                    let k = choose|k: int| 0 <= k < av.len() && av[k] == q@;
                    assert(allowed@[k]@ == q@);
                }
            }
            return false;
        }
        i = i + 1;
    }
    true
}

/// Validates a judge's feedback (see `judged_feedback`).
pub fn validate_judge_feedback(judged: JudgeFeedback, allowed_evidence: &[String]) -> (r: Result<
    JudgeFeedback,
    String,
>)
    ensures
        match r {
            Ok(o) => judged_feedback(judged@, string_views(allowed_evidence@)) == Ok::<
                JudgeFeedbackView,
                Seq<char>,
            >(o@),
            Err(e) => judged_feedback(judged@, string_views(allowed_evidence@)) == Err::<
                JudgeFeedbackView,
                Seq<char>,
            >(e@),
        },
{
    let ghost jv = judged@;
    let trimmed = trim_str(judged.result.as_str());
    let result = ascii_lowercase(trimmed.as_str());
    if !(str_eq(result.as_str(), "correct") || str_eq(result.as_str(), "partial") || str_eq(
        result.as_str(),
        "wrong",
    )) {
        return Err("result must be correct, partial, or wrong".to_string());
    }
    let correct_points = normalize_strings(judged.correct_points, 16, 500);
    let missing_points = normalize_strings(judged.missing_points, 16, 500);
    let wrong_points = normalize_strings(judged.wrong_points, 16, 500);
    let feedback = trim_str(judged.feedback.as_str());
    let n = char_count(feedback.as_str());
    if n == 0 || n > 4000 {
        return Err("feedback is empty or too long".to_string());
    }
    let evidence = normalize_strings(judged.evidence, 8, 2000);
    if evidence.len() == 0 {
        return Err("judge evidence is empty".to_string());
    }
    if !quotes_allowed(&evidence, allowed_evidence) {
        proof {
            let k = choose|k: int|
                0 <= k < evidence@.len() && !string_views(allowed_evidence@).contains(
                    #[trigger] string_views(evidence@)[k],
                );
            assert(!string_views(allowed_evidence@).contains(
                normalized_strings(jv.evidence, 8, 2000)[k],
            ));
        }
        return Err("judge evidence is not one of the supplied source quotes".to_string());
    }
    Ok(JudgeFeedback { result, correct_points, missing_points, wrong_points, feedback, evidence })
}


/// An answer to record: the question id and the answer, both trimmed and
/// present, the answer at most 20,000 characters.
pub fn attempt_input(question_id: &str, answer: &str) -> (r: Result<(String, String), String>)
    ensures
        if trim(question_id@).len() == 0 {
            r matches Err(e) && e@ == "question id is empty"@
        } else if trim(answer@).len() == 0 {
            r matches Err(e) && e@ == "answer is empty"@
        } else if trim(answer@).len() > 20_000 {
            r matches Err(e) && e@ == "answer is too large"@
        } else {
            r matches Ok((q, a)) && q@ == trim(question_id@) && a@ == trim(answer@)
        },
{
    let q = trim_str(question_id);
    let a = trim_str(answer);
    if char_count(q.as_str()) == 0 {
        return Err("question id is empty".to_string());
    }
    let n = char_count(a.as_str());
    if n == 0 {
        return Err("answer is empty".to_string());
    }
    if n > 20_000 {
        return Err("answer is too large".to_string());
    }
    Ok((q, a))
}


pub open spec fn evidence_pair_views(v: Seq<(String, String)>) -> Seq<(Seq<char>, Seq<char>)> {
    v.map_values(|p: (String, String)| (p.0@, p.1@))
}

/// The id of the first evidence, of `(id, text)` pairs, whose text is the
/// quote.
pub open spec fn first_evidence_id(evidence: Seq<(Seq<char>, Seq<char>)>, quote: Seq<char>) -> Option<
    Seq<char>,
>
    decreases evidence.len(),
{
    if evidence.len() == 0 {
        None
    } else if evidence[0].1 == quote {
        Some(evidence[0].0)
    } else {
        first_evidence_id(evidence.drop_first(), quote)
    }
}

/// The evidence ids of the quoted texts, in order; a quote that is no
/// evidence's text has none.
pub open spec fn linked_evidence(quotes: Seq<Seq<char>>, evidence: Seq<(Seq<char>, Seq<char>)>) -> Seq<
    Seq<char>,
>
    decreases quotes.len(),
{
    if quotes.len() == 0 {
        Seq::empty()
    } else {
        let r = linked_evidence(quotes.drop_last(), evidence);
        match first_evidence_id(evidence, quotes.last()) {
            Some(id) => r.push(id),
            None => r,
        }
    }
}

fn evidence_id_of(evidence: &Vec<(String, String)>, quote: &String) -> (r: Option<String>)
    ensures
        match r {
            Some(id) => first_evidence_id(evidence_pair_views(evidence@), quote@) == Some(id@),
            None => first_evidence_id(evidence_pair_views(evidence@), quote@) is None,
        },
{
    let ghost ev = evidence_pair_views(evidence@);
    let n = evidence.len();
    let mut i: usize = 0;
    assert(ev.skip(0) =~= ev);
    while i < n
        invariant
            n == evidence@.len(),
            ev == evidence_pair_views(evidence@),
            i <= n,
            first_evidence_id(ev, quote@) == first_evidence_id(ev.skip(i as int), quote@),
        decreases n - i,
    {
        assert(ev.skip(i as int)[0] == (evidence@[i as int].0@, evidence@[i as int].1@));
        assert(ev.skip(i as int).drop_first() =~= ev.skip(i + 1));
        if str_eq(evidence[i].1.as_str(), quote.as_str()) {
            return Some(evidence[i].0.clone());
        }
        i = i + 1;
    }
    assert(ev.skip(n as int).len() == 0);
    None
}

/// The evidence ids that a judgement's quotes keep (see `linked_evidence`);
/// a judgement that keeps none is an error.
pub fn judged_evidence_ids(quotes: &Vec<String>, evidence: &Vec<(String, String)>) -> (r: Result<
    Vec<String>,
    String,
>)
    ensures
        match r {
            Ok(ids) => string_views(ids@) == linked_evidence(
                string_views(quotes@),
                evidence_pair_views(evidence@),
            ) && ids@.len() > 0,
            Err(e) => e@ == "judge result lost all evidence links"@ && linked_evidence(
                string_views(quotes@),
                evidence_pair_views(evidence@),
            ).len() == 0,
        },
{
    let ghost qs = string_views(quotes@);
    let ghost ev = evidence_pair_views(evidence@);
    let mut ids: Vec<String> = Vec::new();
    let n = quotes.len();
    let mut i: usize = 0;
    assert(qs.take(0) =~= Seq::<Seq<char>>::empty());
    while i < n
        invariant
            n == quotes@.len(),
            qs == string_views(quotes@),
            ev == evidence_pair_views(evidence@),
            i <= n,
            string_views(ids@) == linked_evidence(qs.take(i as int), ev),
        decreases n - i,
    {
        assert(qs.take(i + 1).drop_last() =~= qs.take(i as int));
        assert(qs.take(i + 1).last() == quotes@[i as int]@);
        match evidence_id_of(evidence, &quotes[i]) {
            Some(id) => {
                let ghost before = string_views(ids@);
                ids.push(id);
                assert(string_views(ids@) =~= before.push(ids@[ids@.len() - 1]@));
            },
            None => {},
        }
        i = i + 1;
    }
    assert(qs.take(n as int) =~= qs);
    if ids.len() == 0 {
        Err("judge result lost all evidence links".to_string())
    } else {
        Ok(ids)
    }
}

} // verus!
