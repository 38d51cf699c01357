//! Skill selection: confidence levels, the selection context, trigger
//! matching (keywords and regular expressions from skill metadata) and the
//! choice of few-shot examples for a query.

use vstd::prelude::*;
use vstd::string::StringSliceAdditionalSpecFns;

use crate::error::SelectError;
use crate::pattern::{regex_matches, CompiledPattern};
use crate::rank::{is_ranking, nat_scores, positions, top_ranked};
use crate::schema::{SkillMetadata, SkillName};
use crate::strmap::StrMap;
use crate::text::{
    contains, contains_spec, owned, push_str, split_words, to_lowercase, trim, trim_spec,
    unicode_lowercase, views, words_spec,
};

verus! {

broadcast use vstd::string::group_string_axioms;

/// Confidence level for a selection result, from none to definite.
#[derive(Debug, Clone, Copy, PartialEq, Eq, Structural, PartialOrd, Ord)]
pub enum Confidence {
    /// No match at all.
    NoMatch,
    /// Weak signal, definitely try next strategy.
    Low,
    /// Decent match, but slower strategy might do better.
    Medium,
    /// Strong match, no need for slower strategies.
    High,
    /// Single clear match, proceed without fallback.
    Definite,
}

impl Confidence {
    /// Position in the order none < low < medium < high < definite.
    pub open spec fn rank(&self) -> nat {
        match self {
            Confidence::NoMatch => 0,
            Confidence::Low => 1,
            Confidence::Medium => 2,
            Confidence::High => 3,
            Confidence::Definite => 4,
        }
    }

    /// Position in the order none < low < medium < high < definite.
    pub fn rank_of(&self) -> (r: u8)
        ensures
            r == self.rank(),
    {
        match self {
            Confidence::NoMatch => 0,
            Confidence::Low => 1,
            Confidence::Medium => 2,
            Confidence::High => 3,
            Confidence::Definite => 4,
        }
    }

    /// Whether this confidence is at least the threshold (high enough to
    /// stop the cascade).
    pub fn is_high_enough(&self, threshold: Confidence) -> (b: bool)
        ensures
            b == (self.rank() >= threshold.rank()),
    {
        self.rank_of() >= threshold.rank_of()
    }
}

impl Default for Confidence {
    fn default() -> (r: Self)
        ensures
            r == Confidence::NoMatch,
    {
        Confidence::NoMatch
    }
}

/// Latency class for a strategy.
#[derive(Debug, Clone, Copy, PartialEq, Eq, Structural)]
pub enum LatencyClass {
    /// Trigger matching: microseconds.
    Microseconds,
    /// Semantic search: milliseconds.
    Milliseconds,
    /// Model classification: seconds.
    Seconds,
}

/// Context available during selection.
#[derive(Debug, Clone)]
pub struct SelectionContext {
    /// Recent conversation history.
    pub conversation_history: Vec<String>,
    /// Currently active/loaded skills.
    pub active_skills: Vec<SkillName>,
    /// User locale (e.g. "zh-CN", "en-US").
    pub user_locale: Option<String>,
    /// Custom context data.
    pub custom: StrMap<String>,
}

impl SelectionContext {
    /// Invariant.
    pub open spec fn wf(&self) -> bool {
        self.custom.wf()
    }

    /// A new empty context.
    pub fn new() -> (r: Self)
        ensures
            r.wf(),
            r.conversation_history@.len() == 0,
            r.active_skills@.len() == 0,
            r.user_locale is None,
            r.custom.view() == Map::<Seq<char>, String>::empty(),
    {
        SelectionContext {
            conversation_history: Vec::new(),
            active_skills: Vec::new(),
            user_locale: None,
            custom: StrMap::new(),
        }
    }

    /// Set the conversation history.
    pub fn with_history(self, history: Vec<String>) -> (r: Self)
        ensures
            r.conversation_history == history,
            r.active_skills == self.active_skills,
            r.user_locale == self.user_locale,
            r.custom == self.custom,
    {
        SelectionContext { conversation_history: history, ..self }
    }

    /// Set the active skills.
    pub fn with_active_skills(self, skills: Vec<SkillName>) -> (r: Self)
        ensures
            r.active_skills == skills,
            r.conversation_history == self.conversation_history,
            r.user_locale == self.user_locale,
            r.custom == self.custom,
    {
        SelectionContext { active_skills: skills, ..self }
    }

    /// Set the user locale.
    pub fn with_locale(self, locale: &str) -> (r: Self)
        ensures
            r.user_locale matches Some(l) && l@ == locale@,
            r.conversation_history == self.conversation_history,
            r.active_skills == self.active_skills,
            r.custom == self.custom,
    {
        SelectionContext { user_locale: Some(owned(locale)), ..self }
    }

    /// Add custom context data.
    pub fn with_custom(self, key: &str, value: &str) -> (r: Self)
        requires
            self.wf(),
        ensures
            r.wf(),
            r.custom.view().dom() == self.custom.view().dom().insert(key@),
            r.custom.view()[key@]@ == value@,
            r.custom.view().remove(key@) == self.custom.view().remove(key@),
            r.conversation_history == self.conversation_history,
            r.active_skills == self.active_skills,
            r.user_locale == self.user_locale,
    {
        let mut custom = self.custom;
        let ghost c0 = custom.view();
        custom.insert(owned(key), owned(value));
        assert(custom.view().remove(key@) =~= c0.remove(key@));
        SelectionContext {
            conversation_history: self.conversation_history,
            active_skills: self.active_skills,
            user_locale: self.user_locale,
            custom,
        }
    }
}

// ---------------------------------------------------------------------------
// Trigger matching
// ---------------------------------------------------------------------------

/// A trigger is a regular expression when it starts with `^` or holds `$`
/// or `|`; otherwise it is a keyword.
pub open spec fn is_pattern_trigger(t: Seq<char>) -> bool {
    (t.len() > 0 && t[0] == '^') || t.contains('$') || t.contains('|')
}

/// The keywords of a skill: its non-empty, non-pattern triggers, trimmed and
/// lower-cased, in order.
pub open spec fn trigger_keywords(triggers: Seq<Seq<char>>) -> Seq<Seq<char>>
    decreases triggers.len(),
{
    if triggers.len() == 0 {
        Seq::empty()
    } else {
        let rest = trigger_keywords(triggers.drop_last());
        let t = trim_spec(triggers.last());
        if t.len() == 0 || is_pattern_trigger(t) {
            rest
        } else {
            rest.push(unicode_lowercase(t))
        }
    }
}

/// The pattern triggers of a skill, trimmed and lower-cased, in order.
pub open spec fn pattern_candidates(triggers: Seq<Seq<char>>) -> Seq<Seq<char>>
    decreases triggers.len(),
{
    if triggers.len() == 0 {
        Seq::empty()
    } else {
        let rest = pattern_candidates(triggers.drop_last());
        let t = trim_spec(triggers.last());
        if t.len() > 0 && is_pattern_trigger(t) {
            rest.push(unicode_lowercase(t))
        } else {
            rest
        }
    }
}

/// `ps` are the patterns of a skill with triggers `triggers`: its pattern
/// triggers (see `pattern_candidates`) that the regex crate compiled, in
/// order.  Which ones compile is left open: the crate's size limit depends
/// on the machine.
pub open spec fn trigger_patterns(triggers: Seq<Seq<char>>, ps: Seq<Seq<char>>) -> bool {
    exists|ok: Seq<bool>|
        ok.len() == pattern_candidates(triggers).len() && ps == crate::text::select_by(pattern_candidates(triggers), ok)
}

/// How a query matched a skill.
#[derive(Debug, Clone, Copy, PartialEq, Eq, Structural)]
pub enum MatchKind {
    /// A keyword occurs in the query.
    Keyword,
    /// A pattern matches the query.
    Pattern,
}

/// Matcher for a single skill.
#[derive(Debug)]
pub struct SkillMatcher {
    skill_name: SkillName,
    keywords: Vec<String>,
    patterns: Vec<CompiledPattern>,
    negative_patterns: Vec<CompiledPattern>,
}

/// The sources of a list of compiled patterns.
pub open spec fn sources(ps: Seq<CompiledPattern>) -> Seq<Seq<char>> {
    Seq::new(ps.len(), |i: int| ps[i].source_spec())
}

/// Index of the first keyword that occurs in `q`.
pub open spec fn first_keyword(ks: Seq<Seq<char>>, q: Seq<char>) -> Option<int>
    decreases ks.len(),
{
    if ks.len() == 0 {
        None
    } else if contains_spec(q, ks[0]) {
        Some(0)
    } else {
        match first_keyword(ks.drop_first(), q) {
            Some(i) => Some(i + 1),
            None => None,
        }
    }
}

/// How a query matches a skill with the given keywords, patterns and
/// negative patterns, all against the lower-cased query `q`: no match when
/// a negative pattern matches; otherwise the first keyword occurring in
/// `q` (its index), else a pattern matching `q`.
pub open spec fn match_spec(
    keywords: Seq<Seq<char>>,
    patterns: Seq<Seq<char>>,
    negatives: Seq<Seq<char>>,
    q: Seq<char>,
) -> Option<(MatchKind, int)> {
    if exists|i: int| 0 <= i < negatives.len() && regex_matches(negatives[i], q) {
        None
    } else {
        match first_keyword(keywords, q) {
            Some(i) => Some((MatchKind::Keyword, i)),
            None => if exists|i: int| 0 <= i < patterns.len() && regex_matches(patterns[i], q) {
                Some((MatchKind::Pattern, 0))
            } else {
                None
            },
        }
    }
}

/// The confidence of a match: a keyword of `k` bytes in a query of `q`
/// bytes scores `k / q` (at most 1, at least 0.7), a pattern 0.8; a score
/// of 0.9 or more is definite, of 0.7 or more high.
pub open spec fn match_confidence(kind: MatchKind, k: nat, q: nat) -> Confidence {
    match kind {
        MatchKind::Keyword => if 10 * k >= 9 * (if q == 0 {
            1
        } else {
            q
        }) {
            Confidence::Definite
        } else {
            Confidence::High
        },
        MatchKind::Pattern => Confidence::High,
    }
}

/// A skill that the query triggered.
#[derive(Debug)]
pub struct TriggerMatch {
    /// The skill.
    pub skill: SkillName,
    /// How it matched.
    pub kind: MatchKind,
    /// Length in bytes of the matching keyword (0 for a pattern).
    pub keyword_len: usize,
    /// Length in bytes of the lower-cased query.
    pub query_len: usize,
    /// Confidence of the match.
    pub confidence: Confidence,
}

impl SkillMatcher {
    /// The skill.
    pub closed spec fn name_spec(&self) -> Seq<char> {
        self.skill_name@
    }

    /// The keywords.
    pub closed spec fn keywords_spec(&self) -> Seq<Seq<char>> {
        views(self.keywords@)
    }

    /// The pattern sources.
    pub closed spec fn patterns_spec(&self) -> Seq<Seq<char>> {
        sources(self.patterns@)
    }

    /// The negative pattern sources.
    pub closed spec fn negatives_spec(&self) -> Seq<Seq<char>> {
        sources(self.negative_patterns@)
    }

    /// How the query matches this skill (see `match_spec`, on the
    /// lower-cased query); for a keyword, its length in bytes.
    pub fn matches(&self, query: &str) -> (r: Option<(MatchKind, usize, usize)>)
        ensures
            match match_spec(
                self.keywords_spec(),
                self.patterns_spec(),
                self.negatives_spec(),
                unicode_lowercase(query@),
            ) {
                None => r is None,
                Some((MatchKind::Keyword, i)) => r matches Some((k, kl, ql)) && k
                    == MatchKind::Keyword && kl == vstd::utf8::encode_utf8(self.keywords_spec()[i]).len()
                    && ql == vstd::utf8::encode_utf8(unicode_lowercase(query@)).len(),
                Some((MatchKind::Pattern, _)) => r matches Some((k, kl, ql)) && k
                    == MatchKind::Pattern && kl == 0 && ql == vstd::utf8::encode_utf8(
                    unicode_lowercase(query@),
                ).len(),
            },
    {
        let q = to_lowercase(query);
        let ghost qs = q@;
        let ql = q.as_str().as_bytes().len();
        assert(ql == vstd::utf8::encode_utf8(qs).len());
        let mut n: usize = 0;
        while n < self.negative_patterns.len()
            invariant
                n <= self.negative_patterns@.len(),
                qs == q@,
                qs == unicode_lowercase(query@),
                ql == vstd::utf8::encode_utf8(qs).len(),
                forall|j: int| 0 <= j < n ==> !regex_matches(self.negatives_spec()[j], qs),
            decreases self.negative_patterns.len() - n,
        {
            if self.negative_patterns[n].is_match(q.as_str()) {
                let ghost negs = self.negatives_spec();
                assert(negs[n as int] == self.negative_patterns@[n as int].source_spec());
                assert(regex_matches(negs[n as int], qs));
                assert(exists|j: int| 0 <= j < negs.len() && regex_matches(negs[j], qs));
                return None;
            }
            n += 1;
        }
        let ghost ks = self.keywords_spec();
        assert(ks.skip(0) =~= ks);
        assert(!(exists|j: int| 0 <= j < self.negatives_spec().len() && regex_matches(self.negatives_spec()[j], qs))) by {
            assert forall|j: int| 0 <= j < self.negatives_spec().len() implies !regex_matches(self.negatives_spec()[j], qs) by {
            }
        }
        let mut i: usize = 0;
        while i < self.keywords.len()
            invariant
                i <= self.keywords@.len(),
                ks == self.keywords_spec(),
                qs == q@,
                qs == unicode_lowercase(query@),
                ql == vstd::utf8::encode_utf8(qs).len(),
                !(exists|j: int| 0 <= j < self.negatives_spec().len() && regex_matches(self.negatives_spec()[j], qs)),
                first_keyword(ks, qs) == (match first_keyword(ks.skip(i as int), qs) {
                    Some(j) => Some(j + i),
                    None => None::<int>,
                }),
            decreases self.keywords.len() - i,
        {
            assert(ks.skip(i as int).drop_first() =~= ks.skip(i + 1));
            assert(ks.skip(i as int)[0] == self.keywords@[i as int]@);
            if contains(q.as_str(), self.keywords[i].as_str()) {
                let kl = self.keywords[i].as_str().as_bytes().len();
                assert(first_keyword(ks.skip(i as int), qs) == Some(0int));
                assert(first_keyword(ks, qs) == Some(i as int));
                return Some((MatchKind::Keyword, kl, ql));
            }
            i += 1;
        }
        assert(ks.skip(i as int).len() == 0);
        let mut p: usize = 0;
        while p < self.patterns.len()
            invariant
                p <= self.patterns@.len(),
                qs == q@,
                qs == unicode_lowercase(query@),
                ql == vstd::utf8::encode_utf8(qs).len(),
                forall|j: int| 0 <= j < p ==> !regex_matches(self.patterns_spec()[j], qs),
                !(exists|j: int| 0 <= j < self.negatives_spec().len() && regex_matches(self.negatives_spec()[j], qs)),
                first_keyword(self.keywords_spec(), qs) is None,
            decreases self.patterns.len() - p,
        {
            if self.patterns[p].is_match(q.as_str()) {
                let ghost pats = self.patterns_spec();
                assert(pats[p as int] == self.patterns@[p as int].source_spec());
                assert(regex_matches(pats[p as int], qs));
                assert(exists|j: int| 0 <= j < pats.len() && regex_matches(pats[j], qs));
                return Some((MatchKind::Pattern, 0, ql));
            }
            p += 1;
        }
        None
    }
}

/// A regular-expression trigger is a strong match whatever the lengths:
/// its confidence is High (a pattern scores 0.8, and 0.7 or more is
/// High); a keyword match is High or Definite, never less, and Definite
/// exactly when the keyword covers at least nine tenths of the query.
pub proof fn law_trigger_confidence(k: nat, q: nat)
    ensures
        match_confidence(MatchKind::Pattern, k, q) == Confidence::High,
        match_confidence(MatchKind::Keyword, k, q) == Confidence::Definite || match_confidence(MatchKind::Keyword, k, q)
            == Confidence::High,
        q > 0 && k >= q ==> match_confidence(MatchKind::Keyword, k, q) == Confidence::Definite,
        q >= 10 && 10 * k < 9 * q ==> match_confidence(MatchKind::Keyword, k, q) == Confidence::High,
{
}

/// The confidence of a match (see `match_confidence`).
pub fn confidence_of(kind: MatchKind, keyword_len: usize, query_len: usize) -> (c: Confidence)
    ensures
        c == match_confidence(kind, keyword_len as nat, query_len as nat),
        kind == MatchKind::Pattern ==> c == Confidence::High,
        kind == MatchKind::Keyword ==> (c == Confidence::Definite || c == Confidence::High),
{
    match kind {
        MatchKind::Keyword => {
            let q: u128 = if query_len == 0 {
                1
            } else {
                query_len as u128
            };
            if (keyword_len as u128) * 10 >= q * 9 {
                Confidence::Definite
            } else {
                Confidence::High
            }
        },
        MatchKind::Pattern => Confidence::High,
    }
}


/// Whether `c` occurs among the characters of `v`.
fn has_char(v: &[char], c: char) -> (b: bool)
    ensures
        b == v@.contains(c),
{
    let mut i: usize = 0;
    while i < v.len()
        invariant
            i <= v@.len(),
            forall|j: int| 0 <= j < i ==> v@[j] != c,
        decreases v.len() - i,
    {
        if v[i] == c {
            assert(v@[i as int] == c);
            return true;
        }
        i += 1;
    }
    false
}

/// Whether a trimmed trigger is a regular expression.
fn pattern_trigger(t: &str) -> (b: bool)
    ensures
        b == is_pattern_trigger(t@),
{
    let v = crate::text::chars_of(t);
    (v.len() > 0 && v[0] == '^') || has_char(v.as_slice(), '$') || has_char(v.as_slice(), '|')
}

/// The matcher for a skill: its keywords (trigger keywords, then its own
/// name) and its patterns; no negative pattern.
pub fn matcher_for(meta: &SkillMetadata) -> (m: SkillMatcher)
    ensures
        m.name_spec() == meta.name@,
        m.keywords_spec() == trigger_keywords(views(meta.triggers@)).push(meta.name@),
        trigger_patterns(views(meta.triggers@), m.patterns_spec()),
        m.negatives_spec().len() == 0,
{
    let ghost ts = views(meta.triggers@);
    let mut keywords: Vec<String> = Vec::new();
    let mut patterns: Vec<CompiledPattern> = Vec::new();
    let ghost mut ok: Seq<bool> = Seq::empty();
    let mut i: usize = 0;
    while i < meta.triggers.len()
        invariant
            i <= meta.triggers@.len(),
            ts == views(meta.triggers@),
            views(keywords@) == trigger_keywords(ts.take(i as int)),
            ok.len() == pattern_candidates(ts.take(i as int)).len(),
            sources(patterns@) == crate::text::select_by(pattern_candidates(ts.take(i as int)), ok),
        decreases meta.triggers.len() - i,
    {
        assert(ts.take(i + 1).drop_last() =~= ts.take(i as int));
        assert(ts.take(i + 1).last() == meta.triggers@[i as int]@);
        let t = trim(meta.triggers[i].as_str());
        if t.as_str().is_empty() {
        } else if pattern_trigger(t.as_str()) {
            let lower = to_lowercase(t.as_str());
            let ghost cands = pattern_candidates(ts.take(i as int)).push(lower@);
            assert(cands.drop_last() =~= pattern_candidates(ts.take(i as int)));
            match CompiledPattern::new(lower.as_str()) {
                Ok(p) => {
                    let ghost p0 = patterns@;
                    patterns.push(p);
                    assert(sources(patterns@) =~= sources(p0).push(lower@));
                    proof {
                        assert(ok.push(true).drop_last() =~= ok);
                        ok = ok.push(true);
                    }
                },
                Err(_) => {
                    proof {
                        assert(ok.push(false).drop_last() =~= ok);
                        ok = ok.push(false);
                    }
                },
            }
        } else {
            let lower = to_lowercase(t.as_str());
            let ghost k0 = keywords@;
            keywords.push(lower);
            assert(views(keywords@) =~= views(k0).push(unicode_lowercase(trim_spec(ts[i as int]))));
        }
        i += 1;
    }
    assert(ts.take(i as int) =~= ts);
    assert(trigger_patterns(ts, sources(patterns@)));
    let ghost k1 = keywords@;
    let name_text = owned(meta.name.as_str());
    keywords.push(name_text);
    assert(views(keywords@) =~= views(k1).push(meta.name@));
    let negative_patterns: Vec<CompiledPattern> = Vec::new();
    let m = SkillMatcher { skill_name: meta.name.clone(), keywords, patterns, negative_patterns };
    assert(m.negatives_spec() =~= Seq::<Seq<char>>::empty());
    m
}

/// What the trigger strategy reports for a query: for each matcher in
/// order whose skill is among the candidates and that the query matches,
/// the skill, how it matched, the keyword's length and the query's length
/// (in bytes).
pub open spec fn trigger_results(
    ms: Seq<SkillMatcher>,
    candidates: Seq<Seq<char>>,
    query: Seq<char>,
) -> Seq<(Seq<char>, MatchKind, nat, nat)>
    decreases ms.len(),
{
    if ms.len() == 0 {
        Seq::empty()
    } else {
        let rest = trigger_results(ms.drop_last(), candidates, query);
        let m = ms.last();
        let q = unicode_lowercase(query);
        let ql = vstd::utf8::encode_utf8(q).len();
        if !candidates.contains(m.name_spec()) {
            rest
        } else {
            match match_spec(m.keywords_spec(), m.patterns_spec(), m.negatives_spec(), q) {
                None => rest,
                Some((MatchKind::Keyword, i)) => rest.push(
                    (
                        m.name_spec(),
                        MatchKind::Keyword,
                        vstd::utf8::encode_utf8(m.keywords_spec()[i]).len(),
                        ql,
                    ),
                ),
                Some((MatchKind::Pattern, _)) => rest.push((m.name_spec(), MatchKind::Pattern, 0, ql)),
            }
        }
    }
}

/// A trigger match as (skill, kind, keyword length, query length).
pub open spec fn match_view(t: TriggerMatch) -> (Seq<char>, MatchKind, nat, nat) {
    (t.skill@, t.kind, t.keyword_len as nat, t.query_len as nat)
}

/// Fast-path matching with the keywords and patterns of skill metadata.
#[derive(Debug)]
pub struct TriggerStrategy {
    matchers: Vec<SkillMatcher>,
}

impl TriggerStrategy {
    /// The matchers, in order.
    pub closed spec fn matchers_spec(&self) -> Seq<SkillMatcher> {
        self.matchers@
    }

    /// An empty strategy.
    pub fn new() -> (r: Self)
        ensures
            r.matchers_spec().len() == 0,
    {
        TriggerStrategy { matchers: Vec::new() }
    }

    /// Build from skill metadata: one matcher per skill, in order.
    pub fn from_metadata(skills: &[SkillMetadata]) -> (r: Result<Self, SelectError>)
        ensures
            r matches Ok(t) && t.matchers_spec().len() == skills@.len() && forall|i: int|
                0 <= i < skills@.len() ==> {
                    let m = #[trigger] t.matchers_spec()[i];
                    &&& m.name_spec() == skills@[i].name@
                    &&& m.keywords_spec() == trigger_keywords(views(skills@[i].triggers@)).push(
                        skills@[i].name@,
                    )
                    &&& trigger_patterns(views(skills@[i].triggers@), m.patterns_spec())
                    &&& m.negatives_spec().len() == 0
                },
    {
        let mut matchers: Vec<SkillMatcher> = Vec::new();
        let mut i: usize = 0;
        while i < skills.len()
            invariant
                i <= skills@.len(),
                matchers@.len() == i,
                forall|j: int|
                    0 <= j < i ==> {
                        let m = #[trigger] matchers@[j];
                        &&& m.name_spec() == skills@[j].name@
                        &&& m.keywords_spec() == trigger_keywords(views(skills@[j].triggers@)).push(
                            skills@[j].name@,
                        )
                        &&& trigger_patterns(views(skills@[j].triggers@), m.patterns_spec())
                        &&& m.negatives_spec().len() == 0
                    },
            decreases skills.len() - i,
        {
            matchers.push(matcher_for(&skills[i]));
            i += 1;
        }
        Ok(TriggerStrategy { matchers })
    }

    /// Add a matcher (after the others), with no negative pattern.
    pub fn add_matcher(&mut self, skill_name: SkillName, keywords: Vec<String>, patterns: Vec<CompiledPattern>)
        ensures
            final(self).matchers_spec().len() == old(self).matchers_spec().len() + 1,
            final(self).matchers_spec().drop_last() == old(self).matchers_spec(),
            final(self).matchers_spec().last().name_spec() == skill_name@,
            final(self).matchers_spec().last().keywords_spec() == views(keywords@),
            final(self).matchers_spec().last().patterns_spec() == sources(patterns@),
            final(self).matchers_spec().last().negatives_spec().len() == 0,
    {
        let negative_patterns: Vec<CompiledPattern> = Vec::new();
        let m = SkillMatcher { skill_name, keywords, patterns, negative_patterns };
        assert(m.negatives_spec() =~= Seq::<Seq<char>>::empty());
        self.matchers.push(m);
        assert(self.matchers@.drop_last() =~= old(self).matchers@);
    }

    /// The skills the query triggers among the candidates (see
    /// `trigger_results`), each with the confidence of its match.
    pub fn matches_for(&self, query: &str, candidates: &[SkillName]) -> (r: Vec<TriggerMatch>)
        ensures
            r@.len() == trigger_results(self.matchers_spec(), Seq::new(candidates@.len(), |i: int| candidates@[i]@), query@).len(),
            forall|i: int| 0 <= i < r@.len() ==> match_view(#[trigger] r@[i]) == trigger_results(self.matchers_spec(), Seq::new(candidates@.len(), |j: int| candidates@[j]@), query@)[i]
                && r@[i].confidence == match_confidence(r@[i].kind, r@[i].keyword_len as nat, r@[i].query_len as nat),
            forall|i: int| 0 <= i < r@.len() && (#[trigger] r@[i]).kind == MatchKind::Pattern ==> r@[i].confidence == Confidence::High,
    {
        let ghost cands = Seq::new(candidates@.len(), |j: int| candidates@[j]@);
        let ghost ms = self.matchers@;
        let mut out: Vec<TriggerMatch> = Vec::new();
        let mut i: usize = 0;
        while i < self.matchers.len()
            invariant
                i <= ms.len(),
                ms == self.matchers@,
                cands == Seq::new(candidates@.len(), |j: int| candidates@[j]@),
                out@.len() == trigger_results(ms.take(i as int), cands, query@).len(),
                forall|k: int| 0 <= k < out@.len() ==> match_view(#[trigger] out@[k]) == trigger_results(ms.take(i as int), cands, query@)[k]
                    && out@[k].confidence == match_confidence(out@[k].kind, out@[k].keyword_len as nat, out@[k].query_len as nat),
            decreases self.matchers.len() - i,
        {
            let m = &self.matchers[i];
            assert(ms.take(i + 1).drop_last() =~= ms.take(i as int));
            assert(ms.take(i + 1).last() == *m);
            let mut found = false;
            let mut c: usize = 0;
            while c < candidates.len()
                invariant
                    c <= candidates@.len(),
                    cands == Seq::new(candidates@.len(), |j: int| candidates@[j]@),
                    found == (exists|j: int| 0 <= j < c && cands[j] == m.name_spec()),
                decreases candidates.len() - c,
            {
                let same = candidates[c].same(&m.skill_name);
                assert(cands[c as int] == candidates@[c as int]@);
                if same {
                    found = true;
                }
                proof {
                    if found {
                        if same {
                            assert(cands[c as int] == m.name_spec());
                        }
                    } else {
                        assert forall|j: int| 0 <= j < c + 1 implies cands[j] != m.name_spec() by {
                            if j < c {
                                assert(!(0 <= j < c && cands[j] == m.name_spec()));
                            }
                        }
                    }
                }
                c += 1;
            }
            assert(found == cands.contains(m.name_spec()));
            if found {
                match m.matches(query) {
                    Some((kind, kl, ql)) => {
                        let conf = confidence_of(kind, kl, ql);
                        let ghost o0 = out@;
                        out.push(TriggerMatch { skill: m.skill_name.clone(), kind, keyword_len: kl, query_len: ql, confidence: conf });
                        assert forall|k: int| 0 <= k < out@.len() implies match_view(#[trigger] out@[k]) == trigger_results(ms.take(i + 1), cands, query@)[k]
                            && out@[k].confidence == match_confidence(out@[k].kind, out@[k].keyword_len as nat, out@[k].query_len as nat) by {
                            if k < o0.len() {
                                assert(out@[k] == o0[k]);
                            }
                        }
                    },
                    None => {},
                }
            }
            i += 1;
        }
        assert(ms.take(i as int) =~= ms);
        out
    }
}

impl Default for TriggerStrategy {
    fn default() -> (r: Self)
        ensures
            r.matchers_spec().len() == 0,
    {
        TriggerStrategy::new()
    }
}


// ---------------------------------------------------------------------------
// Few-shot examples
// ---------------------------------------------------------------------------

/// A few-shot example: a query and the skill it should select.
#[derive(Debug, Clone)]
pub struct FewShotExample {
    /// Example user query.
    pub input: String,
    /// Correct skill for this query.
    pub expected_skill: SkillName,
    /// Why this skill is correct.
    pub reasoning: Option<String>,
}

impl FewShotExample {
    /// A new example without reasoning.
    pub fn new(input: &str, expected_skill: SkillName) -> (r: Self)
        ensures
            r.input@ == input@,
            r.expected_skill == expected_skill,
            r.reasoning is None,
    {
        FewShotExample { input: owned(input), expected_skill, reasoning: None }
    }

    /// The example with a reasoning.
    pub fn with_reasoning(self, reasoning: &str) -> (r: Self)
        ensures
            r.input == self.input,
            r.expected_skill == self.expected_skill,
            r.reasoning matches Some(t) && t@ == reasoning@,
    {
        FewShotExample { reasoning: Some(owned(reasoning)), ..self }
    }
}

/// How many of the words occur in the text (each word counted as often as
/// it is listed).
pub open spec fn overlap(words: Seq<Seq<char>>, text: Seq<char>) -> nat
    decreases words.len(),
{
    if words.len() == 0 {
        0
    } else {
        overlap(words.drop_last(), text) + if contains_spec(text, words.last()) {
            1nat
        } else {
            0nat
        }
    }
}

/// The relevance of an example to a query: how many words of the
/// lower-cased query occur in the lower-cased example.
pub open spec fn example_score(query: Seq<char>, input: Seq<char>) -> nat {
    overlap(words_spec(unicode_lowercase(query)), unicode_lowercase(input))
}

/// The scores of examples for a query.
pub open spec fn example_scores(query: Seq<char>, examples: Seq<FewShotExample>) -> Seq<nat> {
    Seq::new(examples.len(), |i: int| example_score(query, examples[i].input@))
}

/// The number of the words that occur in `text`.
fn count_overlap(words: &Vec<String>, text: &str) -> (n: usize)
    ensures
        n == overlap(views(words@), text@),
{
    let mut n: usize = 0;
    let mut i: usize = 0;
    while i < words.len()
        invariant
            i <= words@.len(),
            n == overlap(views(words@).take(i as int), text@),
            n <= i,
        decreases words.len() - i,
    {
        assert(views(words@).take(i + 1).drop_last() =~= views(words@).take(i as int));
        if contains(text, words[i].as_str()) {
            n += 1;
        }
        i += 1;
    }
    assert(views(words@).take(i as int) =~= views(words@));
    n
}

/// Wraps a selection strategy with few-shot examples relevant to the query.
#[derive(Debug)]
pub struct FewShotEnhanced<S> {
    inner: S,
    examples: Vec<FewShotExample>,
    top_k_examples: usize,
}

impl<S> FewShotEnhanced<S> {
    /// The examples.
    pub closed spec fn examples_spec(&self) -> Seq<FewShotExample> {
        self.examples@
    }

    /// How many examples are given at most.
    pub closed spec fn top_k_spec(&self) -> nat {
        self.top_k_examples as nat
    }

    /// The wrapped strategy.
    pub closed spec fn inner_spec(&self) -> S {
        self.inner
    }

    /// Wraps a strategy, giving at most 3 examples.
    pub fn new(inner: S, examples: Vec<FewShotExample>) -> (r: Self)
        ensures
            r.inner_spec() == inner,
            r.examples_spec() == examples@,
            r.top_k_spec() == 3,
    {
        FewShotEnhanced { inner, examples, top_k_examples: 3 }
    }

    /// Set the number of examples to give.
    pub fn with_top_k(self, top_k: usize) -> (r: Self)
        ensures
            r.inner_spec() == self.inner_spec(),
            r.examples_spec() == self.examples_spec(),
            r.top_k_spec() == top_k,
    {
        FewShotEnhanced { inner: self.inner, examples: self.examples, top_k_examples: top_k }
    }

    /// Add an example.
    pub fn add_example(&mut self, example: FewShotExample)
        ensures
            final(self).inner_spec() == old(self).inner_spec(),
            final(self).examples_spec() == old(self).examples_spec().push(example),
            final(self).top_k_spec() == old(self).top_k_spec(),
    {
        self.examples.push(example);
    }

    /// The wrapped strategy.
    pub fn inner(&self) -> (r: &S)
        ensures
            *r == self.inner_spec(),
    {
        &self.inner
    }

    /// The examples relevant to a query: those sharing words with it, the
    /// best first (see `is_ranking`), at most the configured number.
    pub fn get_relevant_examples(&self, query: &str) -> (r: Vec<&FewShotExample>)
        ensures
            exists|ix: Seq<int>|
                {
                    &&& is_ranking(example_scores(query@, self.examples_spec()), 1, ix, self.top_k_spec())
                    &&& ix.len() == r@.len()
                    &&& forall|j: int| 0 <= j < ix.len() ==> *r@[j] == self.examples_spec()[#[trigger] ix[j]]
                },
    {
        let ghost exs = self.examples@;
        let ghost sc = example_scores(query@, exs);
        let q = to_lowercase(query);
        let words = split_words(q.as_str());
        let n = self.examples.len();
        let mut scores: Vec<u64> = Vec::new();
        let mut i: usize = 0;
        while i < n
            invariant
                i <= n,
                n == exs.len(),
                exs == self.examples@,
                sc == example_scores(query@, exs),
                views(words@) == words_spec(unicode_lowercase(query@)),
                scores@.len() == i,
                forall|j: int| 0 <= j < i ==> scores@[j] as nat == sc[j],
            decreases n - i,
        {
            let lower = to_lowercase(self.examples[i].input.as_str());
            let c = count_overlap(&words, lower.as_str());
            scores.push(c as u64);
            i += 1;
        }
        assert(nat_scores(scores@) =~= sc);
        let top = top_ranked(&scores, 1, self.top_k_examples);
        let mut out: Vec<&FewShotExample> = Vec::new();
        let mut j: usize = 0;
        while j < top.len()
            invariant
                j <= top@.len(),
                exs == self.examples@,
                sc == example_scores(query@, exs),
                is_ranking(sc, 1, positions(top@), self.top_k_examples as nat),
                out@.len() == j,
                forall|t: int| 0 <= t < j ==> *out@[t] == exs[#[trigger] top@[t] as int],
            decreases top.len() - j,
        {
            assert(positions(top@)[j as int] == top@[j as int] as int);
            out.push(&self.examples[top[j]]);
            j += 1;
        }
        let ghost ix = positions(top@);
        assert forall|t: int| 0 <= t < ix.len() implies *out@[t] == self.examples_spec()[#[trigger] ix[t]] by {
            assert(ix[t] == top@[t] as int);
        }
        assert({
            &&& is_ranking(example_scores(query@, self.examples_spec()), 1, ix, self.top_k_spec())
            &&& ix.len() == out@.len()
            &&& forall|j: int| 0 <= j < ix.len() ==> *out@[j] == self.examples_spec()[#[trigger] ix[j]]
        });
        out
    }

    /// The examples for a query as lines for the selection context:
    /// `Example: "<input>" -> <skill>`, with ` (<reasoning>)` when there
    /// is one.
    pub fn example_lines(&self, query: &str) -> (r: Vec<String>)
        ensures
            exists|ix: Seq<int>|
                {
                    &&& is_ranking(example_scores(query@, self.examples_spec()), 1, ix, self.top_k_spec())
                    &&& ix.len() == r@.len()
                    &&& forall|j: int| 0 <= j < ix.len() ==> (#[trigger] r@[j])@ == example_line(self.examples_spec()[ix[j]])
                },
    {
        let examples = self.get_relevant_examples(query);
        let ghost ix = choose|ix: Seq<int>|
            {
                &&& is_ranking(example_scores(query@, self.examples_spec()), 1, ix, self.top_k_spec())
                &&& ix.len() == examples@.len()
                &&& forall|j: int| 0 <= j < ix.len() ==> *examples@[j] == self.examples_spec()[#[trigger] ix[j]]
            };
        let mut out: Vec<String> = Vec::new();
        let mut j: usize = 0;
        while j < examples.len()
            invariant
                j <= examples@.len(),
                ix.len() == examples@.len(),
                forall|t: int| 0 <= t < ix.len() ==> *examples@[t] == self.examples_spec()[#[trigger] ix[t]],
                out@.len() == j,
                forall|t: int| 0 <= t < j ==> (#[trigger] out@[t])@ == example_line(self.examples_spec()[ix[t]]),
            decreases examples.len() - j,
        {
            let ex = examples[j];
            let mut line = owned("Example: \"");
            push_str(&mut line, ex.input.as_str());
            push_str(&mut line, "\" -> ");
            push_str(&mut line, ex.expected_skill.as_str());
            match &ex.reasoning {
                Some(r) => {
                    push_str(&mut line, " (");
                    push_str(&mut line, r.as_str());
                    push_str(&mut line, ")");
                },
                None => {},
            }
            assert(*ex == self.examples_spec()[ix[j as int]]);
            out.push(line);
            j += 1;
        }
        out
    }
}

/// The line for an example.
pub open spec fn example_line(ex: FewShotExample) -> Seq<char> {
    "Example: \""@ + ex.input@ + "\" -> "@ + ex.expected_skill@ + match ex.reasoning {
        Some(r) => " ("@ + r@ + ")"@,
        None => Seq::empty(),
    }
}

/// Whether a cascade stops after a strategy returned results of these
/// confidences: not in exhaustive mode, and the best of them reaches the
/// strategy's stopping confidence.  No results never stop it.
pub fn cascade_stops(exhaustive: bool, stop_at: Confidence, confidences: &[Confidence]) -> (r: bool)
    ensures
        r == (!exhaustive && exists|i: int|
            0 <= i < confidences@.len() && (#[trigger] confidences@[i]).rank() >= stop_at.rank()),
{
    if exhaustive {
        return false;
    }
    let mut i: usize = 0;
    while i < confidences.len()
        invariant
            !exhaustive,
            i <= confidences@.len(),
            forall|k: int| 0 <= k < i ==> (#[trigger] confidences@[k]).rank() < stop_at.rank(),
        decreases confidences.len() - i,
    {
        if confidences[i].rank_of() >= stop_at.rank_of() {
            assert(confidences@[i as int].rank() >= stop_at.rank());
            return true;
        }
        i += 1;
    }
    false
}

/// `i` is the first position of its name among `names`.
pub open spec fn first_of_name(names: Seq<Seq<char>>, i: int) -> bool {
    0 <= i < names.len() && forall|j: int| 0 <= j < i ==> names[j] != names[i]
}

/// The positions of the first result of each skill, in order: merging
/// results that are already ranked keeps each skill's best one.
pub fn first_per_skill(names: &[SkillName]) -> (r: Vec<usize>)
    ensures
        forall|k: int| 0 <= k < r@.len() ==> first_of_name(crate::registry::name_views(names@), #[trigger] r@[k] as int),
        forall|a: int, b: int| 0 <= a < b < r@.len() ==> r@[a] < r@[b],
        forall|i: int| #[trigger] first_of_name(crate::registry::name_views(names@), i) ==> exists|k: int|
            0 <= k < r@.len() && (#[trigger] r@[k]) == i,
{
    let ghost ns = crate::registry::name_views(names@);
    let mut out: Vec<usize> = Vec::new();
    let mut i: usize = 0;
    while i < names.len()
        invariant
            i <= names@.len(),
            ns == crate::registry::name_views(names@),
            forall|k: int| 0 <= k < out@.len() ==> first_of_name(ns, #[trigger] out@[k] as int) && out@[k] < i,
            forall|a: int, b: int| 0 <= a < b < out@.len() ==> out@[a] < out@[b],
            forall|x: int| 0 <= x < i && #[trigger] first_of_name(ns, x) ==> exists|k: int|
                0 <= k < out@.len() && (#[trigger] out@[k]) == x,
        decreases names.len() - i,
    {
        let mut seen = false;
        let mut j: usize = 0;
        while j < i
            invariant
                j <= i,
                i < names@.len(),
                ns == crate::registry::name_views(names@),
                seen == exists|t: int| 0 <= t < j && #[trigger] ns[t] == ns[i as int],
            decreases i - j,
        {
            if names[j].same(&names[i]) {
                assert(ns[j as int] == ns[i as int]);
                seen = true;
            }
            j += 1;
        }
        if !seen {
            let ghost o0 = out@;
            out.push(i);
            proof {
                assert(first_of_name(ns, i as int));
                assert forall|x: int| 0 <= x < i + 1 && #[trigger] first_of_name(ns, x) implies exists|k: int|
                    0 <= k < out@.len() && (#[trigger] out@[k]) == x by {
                    if x < i {
                        let k = choose|k: int| 0 <= k < o0.len() && (#[trigger] o0[k]) == x;
                        assert(out@[k] == x);
                    } else {
                        assert(out@[o0.len() as int] == x);
                    }
                }
            }
        } else {
            proof {
                let t = choose|t: int| 0 <= t < i && #[trigger] ns[t] == ns[i as int];
                assert(!first_of_name(ns, i as int));
            }
        }
        i += 1;
    }
    out
}

/// A negative trigger overrides every keyword and pattern: a skill all of
/// whose matchers have a negative pattern matching the lower-cased query
/// is never among the trigger results, and neither is a skill that is not
/// a candidate.
pub proof fn law_negative_trigger_blocks(
    ms: Seq<SkillMatcher>,
    candidates: Seq<Seq<char>>,
    query: Seq<char>,
    name: Seq<char>,
)
    requires
        !candidates.contains(name) || forall|i: int|
            0 <= i < ms.len() && (#[trigger] ms[i]).name_spec() == name ==> exists|j: int|
                0 <= j < ms[i].negatives_spec().len() && regex_matches(
                    ms[i].negatives_spec()[j],
                    unicode_lowercase(query),
                ),
    ensures
        forall|k: int|
            0 <= k < trigger_results(ms, candidates, query).len() ==> (#[trigger] trigger_results(
                ms,
                candidates,
                query,
            )[k]).0 != name,
    decreases ms.len(),
{
    if ms.len() > 0 {
        let p = ms.drop_last();
        if candidates.contains(name) {
            assert forall|i: int| 0 <= i < p.len() && (#[trigger] p[i]).name_spec() == name implies exists|j: int|
                0 <= j < p[i].negatives_spec().len() && regex_matches(
                    p[i].negatives_spec()[j],
                    unicode_lowercase(query),
                ) by {
                assert(p[i] == ms[i]);
            }
        }
        law_negative_trigger_blocks(p, candidates, query, name);
        let m = ms.last();
        let q = unicode_lowercase(query);
        let rest = trigger_results(p, candidates, query);
        if m.name_spec() == name && candidates.contains(name) {
            assert(ms[ms.len() - 1] == m);
            assert(match_spec(m.keywords_spec(), m.patterns_spec(), m.negatives_spec(), q) is None);
            assert(trigger_results(ms, candidates, query) == rest);
        } else {
            assert forall|k: int| 0 <= k < trigger_results(ms, candidates, query).len() implies (
            #[trigger] trigger_results(ms, candidates, query)[k]).0 != name by {
                if k < rest.len() {
                    assert(trigger_results(ms, candidates, query)[k] == rest[k]);
                }
            }
        }
    }
}

} // verus!
