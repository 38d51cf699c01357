//! Skill selection by a language model: the prompt that lists the
//! candidates, the JSON object cut out of the model's reply, and the check
//! that keeps only selections naming a candidate.
//!
//! Sending the prompt and decoding the JSON happen in the program; scores
//! travel as the bits of an `f32`.

use vstd::prelude::*;
use crate::schema::{SkillMetadata, SkillName};
use crate::text::{chars_of, decimal, decimal_string, owned, push_str, slice_chars, string_from};

verus! {

/// The default system prompt.
pub const DEFAULT_SYSTEM_PROMPT: &'static str = "You are a skill selector. Given a user query and a list of available skills, determine which skill(s) should handle the query.\n\nRespond ONLY with valid JSON in this format:\n{\"skills\": [{\"name\": \"skill-name\", \"confidence\": 0.0-1.0, \"reasoning\": \"brief explanation\"}]}\n\nIf no skill is appropriate, return: {\"skills\": []}\n";

/// The prompt line of the candidate at position `i`: `"{i+1}. {name}: {description}\n"`.
pub open spec fn candidate_line(i: nat, m: SkillMetadata) -> Seq<char> {
    decimal(i + 1) + ". "@ + m.name@ + ": "@ + m.description@ + "\n"@
}

/// The prompt lines of the first `k` candidates.
pub open spec fn candidate_lines(c: Seq<SkillMetadata>, k: nat) -> Seq<char>
    decreases k,
{
    if k == 0 {
        Seq::empty()
    } else {
        candidate_lines(c, (k - 1) as nat) + candidate_line((k - 1) as nat, c[k - 1])
    }
}

/// The prompt: the system prompt, at most `max` candidates, the query and
/// the closing question.
pub open spec fn prompt_text(system: Seq<char>, max: nat, query: Seq<char>, c: Seq<SkillMetadata>) -> Seq<char> {
    let k = if c.len() < max {
        c.len()
    } else {
        max
    };
    system + "\n\nAvailable skills:\n"@ + candidate_lines(c, k) + "\nUser query: \""@ + query + "\"\n"@
        + "\nWhich skill(s) should handle this query? Respond with JSON:"@
}

/// Builds the prompt that asks which of the candidates should handle the
/// query; only the first `max_candidates` candidates are listed.
pub fn build_prompt(system_prompt: &str, max_candidates: usize, query: &str, candidates: &[SkillMetadata]) -> (r: String)
    ensures
        r@ == prompt_text(system_prompt@, max_candidates as nat, query@, candidates@),
{
    let mut p = owned(system_prompt);
    push_str(&mut p, "\n\nAvailable skills:\n");
    let k = if candidates.len() < max_candidates {
        candidates.len()
    } else {
        max_candidates
    };
    let ghost head = p@;
    let mut i: usize = 0;
    while i < k
        invariant
            i <= k,
            k <= candidates@.len(),
            p@ == head + candidate_lines(candidates@, i as nat),
        decreases k - i,
    {
        let num = decimal_string((i + 1) as u64);
        let ghost before = p@;
        push_str(&mut p, num.as_str());
        push_str(&mut p, ". ");
        push_str(&mut p, candidates[i].name.as_str());
        push_str(&mut p, ": ");
        push_str(&mut p, candidates[i].description.as_str());
        push_str(&mut p, "\n");
        proof {
            assert(p@ =~= before + candidate_line(i as nat, candidates@[i as int]));
            assert(candidate_lines(candidates@, (i + 1) as nat) == candidate_lines(candidates@, i as nat)
                + candidate_line(i as nat, candidates@[i as int]));
            assert(p@ =~= head + candidate_lines(candidates@, (i + 1) as nat));
        }
        i += 1;
    }
    let ghost mid = p@;
    push_str(&mut p, "\nUser query: \"");
    push_str(&mut p, query);
    push_str(&mut p, "\"\n");
    push_str(&mut p, "\nWhich skill(s) should handle this query? Respond with JSON:");
    assert(p@ =~= prompt_text(system_prompt@, max_candidates as nat, query@, candidates@));
    p
}

/// `i` is the first position of `c` in `s`.
pub open spec fn is_first(s: Seq<char>, c: char, i: int) -> bool {
    &&& 0 <= i < s.len()
    &&& s[i] == c
    &&& forall|j: int| 0 <= j < i ==> s[j] != c
}

/// `i` is the last position of `c` in `s`.
pub open spec fn is_last(s: Seq<char>, c: char, i: int) -> bool {
    &&& 0 <= i < s.len()
    &&& s[i] == c
    &&& forall|j: int| i < j < s.len() ==> s[j] != c
}

/// `c` occurs in `s`.
pub open spec fn has_char(s: Seq<char>, c: char) -> bool {
    exists|i: int| 0 <= i < s.len() && s[i] == c
}

/// The part of a reply that is read as JSON: from the first `{` through
/// the last `}`, or the whole reply where either brace is missing.
pub open spec fn json_part(s: Seq<char>) -> Seq<char> {
    if has_char(s, '{') && has_char(s, '}') {
        let a = choose|i: int| is_first(s, '{', i);
        let b = choose|i: int| is_last(s, '}', i);
        s.subrange(a, b + 1)
    } else {
        s
    }
}

/// The cut is a slice: the last `}` comes no earlier than just before the
/// first `{`.
pub open spec fn json_part_defined(s: Seq<char>) -> bool {
    forall|a: int, b: int| is_first(s, '{', a) && is_last(s, '}', b) ==> a <= b + 1
}

/// The first position of `c`.
fn find_first(v: &[char], c: char) -> (r: Option<usize>)
    ensures
        match r {
            Some(i) => is_first(v@, c, i as int),
            None => !has_char(v@, c),
        },
{
    let mut i: usize = 0;
    while i < v.len()
        invariant
            i <= v@.len(),
            forall|j: int| 0 <= j < i ==> v@[j] != c,
        decreases v.len() - i,
    {
        if v[i] == c {
            return Some(i);
        }
        i += 1;
    }
    None
}

/// The last position of `c`.
fn find_last(v: &[char], c: char) -> (r: Option<usize>)
    ensures
        match r {
            Some(i) => is_last(v@, c, i as int),
            None => !has_char(v@, c),
        },
{
    let mut i: usize = v.len();
    while i > 0
        invariant
            i <= v@.len(),
            forall|j: int| i <= j < v@.len() ==> v@[j] != c,
        decreases i,
    {
        if v[i - 1] == c {
            return Some(i - 1);
        }
        i -= 1;
    }
    None
}

/// The part of the model's reply that is decoded as JSON: from the first
/// `{` through the last `}`, or the whole reply where either is missing.
pub fn json_span(response: &str) -> (r: String)
    requires
        json_part_defined(response@),
    ensures
        r@ == json_part(response@),
{
    let v = chars_of(response);
    match find_first(v.as_slice(), '{') {
        Some(a) => match find_last(v.as_slice(), '}') {
            Some(b) => {
                proof {
                    let ca = choose|i: int| is_first(v@, '{', i);
                    let cb = choose|i: int| is_last(v@, '}', i);
                    assert(has_char(v@, '{'));
                    assert(has_char(v@, '}'));
                    assert(is_first(v@, '{', ca));
                    assert(is_last(v@, '}', cb));
                    if ca < a {
                        assert(v@[ca] != '{');
                    }
                    if a < ca {
                        assert(v@[a as int] != '{');
                    }
                    if cb < b {
                        assert(v@[cb] != '}');
                    }
                    if b < cb {
                        assert(v@[b as int] != '}');
                    }
                }
                let n = v.len();
                assert(b < n);
                let w = slice_chars(v.as_slice(), a, b + 1);
                string_from(w.as_slice())
            },
            None => owned(response),
        },
        None => owned(response),
    }
}

/// One selection as the model stated it.
pub struct LlmSelection {
    /// The skill name the model gave.
    pub name: String,
    /// The model's confidence, as the bits of an `f32`.
    pub confidence_bits: u32,
    /// The model's reasoning, if any.
    pub reasoning: Option<String>,
}

/// A selection that names a candidate.
pub struct KnownSelection {
    /// The candidate's name.
    pub skill: SkillName,
    /// The model's confidence, as the bits of an `f32`.
    pub confidence_bits: u32,
    /// The model's reasoning, if any.
    pub reasoning: Option<String>,
}

/// Whether `name` is the name of one of the candidates.
pub open spec fn is_candidate(c: Seq<SkillMetadata>, name: Seq<char>) -> bool {
    exists|i: int| 0 <= i < c.len() && c[i].name@ == name
}

/// Whether a selection names one of the candidates.
pub open spec fn names_candidate(c: Seq<SkillMetadata>) -> spec_fn(LlmSelection) -> bool {
    |s: LlmSelection| is_candidate(c, s.name@)
}

/// The selections that name a candidate, in order.
pub open spec fn kept(s: Seq<LlmSelection>, c: Seq<SkillMetadata>) -> Seq<LlmSelection> {
    s.filter(names_candidate(c))
}

/// Two optional texts are equal by their views.
pub open spec fn same_text(a: Option<String>, b: Option<String>) -> bool {
    match (a, b) {
        (Some(x), Some(y)) => x@ == y@,
        (None, None) => true,
        _ => false,
    }
}

/// `k` carries selection `s` over to a known skill.
pub open spec fn carries(k: KnownSelection, s: LlmSelection) -> bool {
    &&& k.skill@ == s.name@
    &&& k.confidence_bits == s.confidence_bits
    &&& same_text(k.reasoning, s.reasoning)
}

/// The position of the candidate named `name`.
fn find_candidate(candidates: &[SkillMetadata], name: &str) -> (r: Option<usize>)
    ensures
        match r {
            Some(i) => i < candidates@.len() && candidates@[i as int].name@ == name@,
            None => !is_candidate(candidates@, name@),
        },
{
    let mut i: usize = 0;
    while i < candidates.len()
        invariant
            i <= candidates@.len(),
            forall|j: int| 0 <= j < i ==> candidates@[j].name@ != name@,
        decreases candidates.len() - i,
    {
        if crate::text::str_eq(candidates[i].name.as_str(), name) {
            return Some(i);
        }
        i += 1;
    }
    None
}

/// A copy of an optional text.
fn copy_text(t: &Option<String>) -> (r: Option<String>)
    ensures
        same_text(r, *t),
{
    match t {
        Some(s) => Some(owned(s.as_str())),
        None => None,
    }
}

/// The selections that name one of the candidates, in order, each with
/// the candidate's name; selections of unknown skills are dropped.
pub fn known_selections(parsed: &[LlmSelection], candidates: &[SkillMetadata]) -> (r: Vec<KnownSelection>)
    ensures
        r@.len() == kept(parsed@, candidates@).len(),
        forall|i: int| 0 <= i < r@.len() ==> carries(#[trigger] r@[i], kept(parsed@, candidates@)[i]),
        (forall|j: int| 0 <= j < candidates@.len() ==> (#[trigger] candidates@[j]).name.wf())
            ==> forall|i: int| 0 <= i < r@.len() ==> (#[trigger] r@[i]).skill.wf(),
{
    let mut out: Vec<KnownSelection> = Vec::new();
    let ghost all_valid = forall|j: int| 0 <= j < candidates@.len() ==> (#[trigger] candidates@[j]).name.wf();
    let mut i: usize = 0;
    while i < parsed.len()
        invariant
            i <= parsed@.len(),
            out@.len() == kept(parsed@.take(i as int), candidates@).len(),
            forall|k: int| 0 <= k < out@.len() ==> carries(#[trigger] out@[k], kept(parsed@.take(i as int), candidates@)[k]),
            all_valid == forall|j: int| 0 <= j < candidates@.len() ==> (#[trigger] candidates@[j]).name.wf(),
            all_valid ==> forall|k: int| 0 <= k < out@.len() ==> (#[trigger] out@[k]).skill.wf(),
        decreases parsed.len() - i,
    {
        let s = &parsed[i];
        proof {
            let pre = parsed@.take(i as int);
            assert(parsed@.take(i + 1) =~= pre.push(*s));
            pre.lemma_filter_push(*s, names_candidate(candidates@));
        }
        match find_candidate(candidates, s.name.as_str()) {
            Some(j) => {
                let k = KnownSelection {
                    skill: candidates[j].name.duplicate(),
                    confidence_bits: s.confidence_bits,
                    reasoning: copy_text(&s.reasoning),
                };
                proof {
                    assert(names_candidate(candidates@)(*s));
                    if all_valid {
                        assert(candidates@[j as int].name.wf());
                    }
                }
                out.push(k);
            },
            None => {},
        }
        i += 1;
    }
    assert(parsed@.take(i as int) =~= parsed@);
    out
}

} // verus!
