//! Learning from use: the trigger test harness's expectations and per-skill
//! accounting, and the selection metrics collector with its Prometheus
//! text export.

use vstd::prelude::*;

use crate::rank::{is_ranking, nat_scores, positions, top_ranked};
use crate::schema::SkillName;
use crate::select::{Confidence, SelectionContext};
use crate::strmap::{entries_map, StrMap};
use crate::text::{decimal, decimal_string, join_with, joined, owned, push_str, views};

verus! {

// ---------------------------------------------------------------------------
// Test harness
// ---------------------------------------------------------------------------

/// What skill(s) are expected for a test case.
#[derive(Debug, Clone)]
pub enum TestExpectation {
    /// Expect a single skill.
    Single(SkillName),
    /// Expect any of these skills.
    AnyOf(Vec<SkillName>),
    /// Expect no skill.
    NoSkill,
}

/// The names of a list of skill names.
pub open spec fn name_list(v: Seq<SkillName>) -> Seq<Seq<char>> {
    Seq::new(v.len(), |i: int| v[i]@)
}

impl TestExpectation {
    /// Whether a selection result meets the expectation.
    pub open spec fn matches_spec(&self, result: Option<Seq<char>>) -> bool {
        match (self, result) {
            (TestExpectation::NoSkill, None) => true,
            (TestExpectation::NoSkill, Some(_)) => false,
            (TestExpectation::Single(expected), Some(actual)) => expected@ == actual,
            (TestExpectation::Single(_), None) => false,
            (TestExpectation::AnyOf(expected), Some(actual)) => name_list(expected@).contains(actual),
            (TestExpectation::AnyOf(_), None) => false,
        }
    }

    /// The skills the expectation names.
    pub open spec fn expected_names(&self) -> Seq<Seq<char>> {
        match self {
            TestExpectation::Single(s) => seq![s@],
            TestExpectation::AnyOf(list) => name_list(list@),
            TestExpectation::NoSkill => Seq::empty(),
        }
    }

    /// Check if a result matches the expectation.
    pub fn matches(&self, result: Option<&SkillName>) -> (b: bool)
        ensures
            b == self.matches_spec(
                match result {
                    Some(n) => Some(n@),
                    None => None,
                },
            ),
    {
        match (self, result) {
            (TestExpectation::NoSkill, None) => true,
            (TestExpectation::NoSkill, Some(_)) => false,
            (TestExpectation::Single(expected), Some(actual)) => expected.same(actual),
            (TestExpectation::Single(_), None) => false,
            (TestExpectation::AnyOf(expected), Some(actual)) => contains_name(expected, actual),
            (TestExpectation::AnyOf(_), None) => false,
        }
    }
}

/// Whether a list of names holds `name`.
fn contains_name(v: &Vec<SkillName>, name: &SkillName) -> (b: bool)
    ensures
        b == name_list(v@).contains(name@),
{
    let mut i: usize = 0;
    while i < v.len()
        invariant
            i <= v@.len(),
            forall|j: int| 0 <= j < i ==> v@[j]@ != name@,
        decreases v.len() - i,
    {
        if v[i].same(name) {
            assert(name_list(v@)[i as int] == name@);
            return true;
        }
        i += 1;
    }
    proof {
        if name_list(v@).contains(name@) {
            let j = choose|j: int| 0 <= j < name_list(v@).len() && name_list(v@)[j] == name@;
            assert(v@[j]@ == name@);
        }
    }
    false
}

/// A single test case.
#[derive(Debug, Clone)]
pub struct TestCase {
    /// Test case name/ID.
    pub name: String,
    /// User query to test.
    pub input: String,
    /// Expected skill(s).
    pub expected: TestExpectation,
    /// Context to provide.
    pub context: SelectionContext,
}

/// A collection of test cases.
#[derive(Debug, Clone)]
pub struct TestSuite {
    /// Suite name.
    pub name: String,
    /// Test cases.
    pub cases: Vec<TestCase>,
}

impl TestSuite {
    /// A new empty suite.
    pub fn new(name: &str) -> (r: Self)
        ensures
            r.name@ == name@,
            r.cases@.len() == 0,
    {
        TestSuite { name: owned(name), cases: Vec::new() }
    }

    /// Add a test case.
    pub fn add_case(&mut self, case: TestCase)
        ensures
            final(self).name == old(self).name,
            final(self).cases@ == old(self).cases@.push(case),
    {
        self.cases.push(case);
    }
}

/// Report for a single skill across test runs.
#[derive(Debug, Clone, Copy, PartialEq, Eq, Structural)]
pub struct SkillTestReport {
    /// Total tests targeting this skill.
    pub total: usize,
    /// Tests that correctly selected this skill.
    pub correct: usize,
    /// Tests where this skill was selected incorrectly.
    pub false_positives: usize,
    /// Tests where this skill should have been selected but wasn't.
    pub false_negatives: usize,
}

impl SkillTestReport {
    /// All counts zero.
    pub open spec fn zero() -> SkillTestReport {
        SkillTestReport { total: 0, correct: 0, false_positives: 0, false_negatives: 0 }
    }
}

impl Default for SkillTestReport {
    fn default() -> (r: Self)
        ensures
            r == SkillTestReport::zero(),
    {
        SkillTestReport { total: 0, correct: 0, false_positives: 0, false_negatives: 0 }
    }
}

/// The report of a skill, zero when there is none yet.
pub open spec fn report_of(m: Map<Seq<char>, SkillTestReport>, k: Seq<char>) -> SkillTestReport {
    if m.dom().contains(k) {
        m[k]
    } else {
        SkillTestReport::zero()
    }
}

/// One more, wrapping at the largest `usize`.
pub open spec fn inc(x: usize) -> usize {
    if x == usize::MAX {
        0
    } else {
        (x + 1) as usize
    }
}

/// One more, wrapping at the largest `usize`.
fn inc_exec(x: usize) -> (r: usize)
    ensures
        r == inc(x),
{
    if x == usize::MAX {
        0
    } else {
        x + 1
    }
}

/// The reports after counting each expected skill of a test case as a
/// target: correct when it was the skill selected, a false negative
/// otherwise.
pub open spec fn account_expected(
    m: Map<Seq<char>, SkillTestReport>,
    expected: Seq<Seq<char>>,
    selected: Option<Seq<char>>,
) -> Map<Seq<char>, SkillTestReport>
    decreases expected.len(),
{
    if expected.len() == 0 {
        m
    } else {
        let e = expected[0];
        let r = report_of(m, e);
        let r2 = if selected == Some(e) {
            SkillTestReport { total: inc(r.total), correct: inc(r.correct), ..r }
        } else {
            SkillTestReport { total: inc(r.total), false_negatives: inc(r.false_negatives), ..r }
        };
        account_expected(m.insert(e, r2), expected.drop_first(), selected)
    }
}

/// The reports after accounting one test case: the expected skills (see
/// `account_expected`), then a false positive for a selected skill that was
/// not expected.
pub open spec fn account(
    m: Map<Seq<char>, SkillTestReport>,
    expected: Seq<Seq<char>>,
    selected: Option<Seq<char>>,
) -> Map<Seq<char>, SkillTestReport> {
    let m1 = account_expected(m, expected, selected);
    match selected {
        Some(s) => if expected.contains(s) {
            m1
        } else {
            m1.insert(s, SkillTestReport { false_positives: inc(report_of(m1, s).false_positives), ..report_of(m1, s) })
        },
        None => m1,
    }
}

/// Counting the expected skills leaves every other skill's report alone.
proof fn lemma_expected_leave_others(
    m: Map<Seq<char>, SkillTestReport>,
    expected: Seq<Seq<char>>,
    selected: Option<Seq<char>>,
    k: Seq<char>,
)
    requires
        !expected.contains(k),
    ensures
        report_of(account_expected(m, expected, selected), k) == report_of(m, k),
    decreases expected.len(),
{
    if expected.len() > 0 {
        let e = expected[0];
        assert(e != k);
        assert(!expected.drop_first().contains(k)) by {
            if expected.drop_first().contains(k) {
                let j = choose|j: int| 0 <= j < expected.drop_first().len() && expected.drop_first()[j] == k;
                assert(expected[j + 1] == k);
            }
        }
        let r = report_of(m, e);
        let r2 = if selected == Some(e) {
            SkillTestReport { total: inc(r.total), correct: inc(r.correct), ..r }
        } else {
            SkillTestReport { total: inc(r.total), false_negatives: inc(r.false_negatives), ..r }
        };
        lemma_expected_leave_others(m.insert(e, r2), expected.drop_first(), selected, k);
    }
}

/// An expected skill, listed once, is counted once as a target.
proof fn lemma_expected_counted(
    m: Map<Seq<char>, SkillTestReport>,
    expected: Seq<Seq<char>>,
    selected: Option<Seq<char>>,
    e: Seq<char>,
)
    requires
        expected.contains(e),
        expected.no_duplicates(),
    ensures
        report_of(account_expected(m, expected, selected), e).total == inc(report_of(m, e).total),
        report_of(account_expected(m, expected, selected), e).false_positives == report_of(m, e).false_positives,
        selected == Some(e) ==> report_of(account_expected(m, expected, selected), e).correct == inc(report_of(m, e).correct)
            && report_of(account_expected(m, expected, selected), e).false_negatives == report_of(m, e).false_negatives,
        selected != Some(e) ==> report_of(account_expected(m, expected, selected), e).false_negatives == inc(
            report_of(m, e).false_negatives,
        ) && report_of(account_expected(m, expected, selected), e).correct == report_of(m, e).correct,
    decreases expected.len(),
{
    let e0 = expected[0];
    let rest = expected.drop_first();
    let r = report_of(m, e0);
    let r2 = if selected == Some(e0) {
        SkillTestReport { total: inc(r.total), correct: inc(r.correct), ..r }
    } else {
        SkillTestReport { total: inc(r.total), false_negatives: inc(r.false_negatives), ..r }
    };
    if e0 == e {
        assert(!rest.contains(e)) by {
            if rest.contains(e) {
                let j = choose|j: int| 0 <= j < rest.len() && rest[j] == e;
                assert(expected[j + 1] == expected[0]);
            }
        }
        lemma_expected_leave_others(m.insert(e0, r2), rest, selected, e);
    } else {
        assert(rest.contains(e)) by {
            let j = choose|j: int| 0 <= j < expected.len() && expected[j] == e;
            assert(rest[j - 1] == e);
        }
        assert(rest.no_duplicates()) by {
            assert forall|a: int, b: int| 0 <= a < rest.len() && 0 <= b < rest.len() && a != b implies rest[a] != rest[b] by {
                assert(expected[a + 1] != expected[b + 1]);
            }
        }
        lemma_expected_counted(m.insert(e0, r2), rest, selected, e);
    }
}

/// Each skill a test case expects (listed once) is counted once as a
/// target: correct when it was the skill selected, a false negative
/// otherwise, and never a false positive.
pub proof fn law_expected_skill_counted(
    m: Map<Seq<char>, SkillTestReport>,
    expected: Seq<Seq<char>>,
    selected: Option<Seq<char>>,
    e: Seq<char>,
)
    requires
        expected.contains(e),
        expected.no_duplicates(),
    ensures
        report_of(account(m, expected, selected), e).total == inc(report_of(m, e).total),
        report_of(account(m, expected, selected), e).false_positives == report_of(m, e).false_positives,
        selected == Some(e) ==> report_of(account(m, expected, selected), e).correct == inc(report_of(m, e).correct),
        selected != Some(e) ==> report_of(account(m, expected, selected), e).false_negatives == inc(
            report_of(m, e).false_negatives,
        ),
{
    lemma_expected_counted(m, expected, selected, e);
    if selected is Some && !expected.contains(selected->Some_0) {
        assert(selected->Some_0 != e);
    }
}

/// A skill selected on a test case that did not expect it (an expectation
/// of no skill included) is a false positive: its false-positive count
/// rises by one (wrapping at the largest `usize`) and its other counts
/// stay; a case that selects nothing adds no false positive anywhere.
pub proof fn law_unexpected_selection_is_false_positive(
    m: Map<Seq<char>, SkillTestReport>,
    expected: Seq<Seq<char>>,
    s: Seq<char>,
)
    requires
        !expected.contains(s),
    ensures
        report_of(account(m, expected, Some(s)), s).false_positives == inc(report_of(m, s).false_positives),
        report_of(account(m, expected, Some(s)), s).total == report_of(m, s).total,
        report_of(account(m, expected, Some(s)), s).correct == report_of(m, s).correct,
        report_of(account(m, expected, Some(s)), s).false_negatives == report_of(m, s).false_negatives,
        report_of(m, s).false_positives < usize::MAX ==> report_of(account(m, expected, Some(s)), s).false_positives
            == report_of(m, s).false_positives + 1,
{
    lemma_expected_leave_others(m, expected, Some(s), s);
}

/// The report of a skill, zero when there is none yet.
fn report_in(m: &StrMap<SkillTestReport>, k: &str) -> (r: SkillTestReport)
    requires
        m.wf(),
    ensures
        r == report_of(m.view(), k@),
{
    match m.get(k) {
        Some(r) => *r,
        None => SkillTestReport::default(),
    }
}

/// Accounts one test case in the per-skill reports (see `account`) and
/// returns whether the case passed.
pub fn record_case(
    per_skill: &mut StrMap<SkillTestReport>,
    expected: &TestExpectation,
    selected: Option<&SkillName>,
) -> (passed: bool)
    requires
        old(per_skill).wf(),
    ensures
        final(per_skill).wf(),
        final(per_skill).view() == account(
            old(per_skill).view(),
            expected.expected_names(),
            match selected {
                Some(n) => Some(n@),
                None => None,
            },
        ),
        passed == expected.matches_spec(
            match selected {
                Some(n) => Some(n@),
                None => None,
            },
        ),
        selected is Some && !expected.expected_names().contains(selected->Some_0@) ==> report_of(
            final(per_skill).view(),
            selected->Some_0@,
        ).false_positives == inc(report_of(old(per_skill).view(), selected->Some_0@).false_positives),
{
    proof {
        if selected is Some && !expected.expected_names().contains(selected->Some_0@) {
            law_unexpected_selection_is_false_positive(old(per_skill).view(), expected.expected_names(), selected->Some_0@);
        }
    }
    let ghost sel = match selected {
        Some(n) => Some(n@),
        None => None::<Seq<char>>,
    };
    let passed = expected.matches(selected);
    let names: Vec<String> = match expected {
        TestExpectation::Single(s) => {
            let mut v: Vec<String> = Vec::new();
            v.push(owned(s.as_str()));
            v
        },
        TestExpectation::AnyOf(list) => {
            let mut v: Vec<String> = Vec::new();
            let mut i: usize = 0;
            while i < list.len()
                invariant
                    i <= list@.len(),
                    views(v@) == name_list(list@).take(i as int),
                decreases list.len() - i,
            {
                let ghost v0 = v@;
                v.push(owned(list[i].as_str()));
                assert(views(v@) =~= views(v0).push(list@[i as int]@));
                assert(name_list(list@).take(i + 1) =~= name_list(list@).take(i as int).push(list@[i as int]@));
                i += 1;
            }
            assert(name_list(list@).take(i as int) =~= name_list(list@));
            v
        },
        TestExpectation::NoSkill => Vec::new(),
    };
    assert(views(names@) =~= expected.expected_names());
    let ghost all = views(names@);
    let ghost m0 = per_skill.view();
    let mut i: usize = 0;
    assert(all.skip(0) =~= all);
    while i < names.len()
        invariant
            i <= names@.len(),
            all == views(names@),
            per_skill.wf(),
            sel == (match selected {
                Some(n) => Some(n@),
                None => None::<Seq<char>>,
            }),
            account_expected(m0, all, sel) == account_expected(per_skill.view(), all.skip(i as int), sel),
        decreases names.len() - i,
    {
        let e = names[i].as_str();
        let r = report_in(per_skill, e);
        let hit = match selected {
            Some(n) => crate::text::str_eq(n.as_str(), e),
            None => false,
        };
        assert(hit == (sel == Some(e@)));
        let r2 = if hit {
            SkillTestReport { total: inc_exec(r.total), correct: inc_exec(r.correct), ..r }
        } else {
            SkillTestReport { total: inc_exec(r.total), false_negatives: inc_exec(r.false_negatives), ..r }
        };
        assert(all.skip(i as int).drop_first() =~= all.skip(i + 1));
        assert(all.skip(i as int)[0] == e@);
        per_skill.insert(owned(e), r2);
        i += 1;
    }
    assert(all.skip(i as int) =~= Seq::<Seq<char>>::empty());
    match selected {
        Some(n) => {
            let mut found = false;
            let mut j: usize = 0;
            while j < names.len()
                invariant
                    j <= names@.len(),
                    all == views(names@),
                    found == (exists|t: int| 0 <= t < j && all[t] == n@),
                decreases names.len() - j,
            {
                let same = crate::text::str_eq(names[j].as_str(), n.as_str());
                assert(all[j as int] == names@[j as int]@);
                if same {
                    found = true;
                }
                proof {
                    if !found {
                        assert forall|t: int| 0 <= t < j + 1 implies all[t] != n@ by {
                            if t < j {
                                assert(!(0 <= t < j && all[t] == n@));
                            }
                        }
                    }
                }
                j += 1;
            }
            assert(found == all.contains(n@));
            if !found {
                let r = report_in(per_skill, n.as_str());
                per_skill.insert(owned(n.as_str()), SkillTestReport { false_positives: inc_exec(r.false_positives), ..r });
            }
        },
        None => {},
    }
    passed
}

/// Test harness for running trigger test suites.
#[derive(Debug, Clone, Copy, PartialEq, Eq, Structural)]
pub struct TriggerTestHarness {
    /// Number of runs per test case (for stability).
    pub runs_per_case: usize,
}

impl Default for TriggerTestHarness {
    fn default() -> (r: Self)
        ensures
            r.runs_per_case == 1,
    {
        TriggerTestHarness::new()
    }
}

impl TriggerTestHarness {
    /// A harness with one run per case.
    pub fn new() -> (r: Self)
        ensures
            r.runs_per_case == 1,
    {
        TriggerTestHarness { runs_per_case: 1 }
    }

    /// Set runs per test case.
    pub fn with_runs(self, runs: usize) -> (r: Self)
        ensures
            r.runs_per_case == runs,
    {
        TriggerTestHarness { runs_per_case: runs }
    }
}


// ---------------------------------------------------------------------------
// Selection metrics
// ---------------------------------------------------------------------------

/// The label a confidence is counted under.
pub open spec fn confidence_label(c: Confidence) -> Seq<char> {
    match c {
        Confidence::NoMatch => "None"@,
        Confidence::Low => "Low"@,
        Confidence::Medium => "Medium"@,
        Confidence::High => "High"@,
        Confidence::Definite => "Definite"@,
    }
}

/// The label a confidence is counted under.
pub fn confidence_label_str(c: Confidence) -> (r: &'static str)
    ensures
        r@ == confidence_label(c),
{
    match c {
        Confidence::NoMatch => "None",
        Confidence::Low => "Low",
        Confidence::Medium => "Medium",
        Confidence::High => "High",
        Confidence::Definite => "Definite",
    }
}

/// Each confidence level is counted under its own name: distinct levels
/// get distinct labels, and the labels are the levels' names (`None` for
/// no match, then `Low`, `Medium`, `High`, `Definite`).
pub proof fn law_confidence_labels(a: Confidence, b: Confidence)
    ensures
        a != b ==> confidence_label(a) != confidence_label(b),
        confidence_label(Confidence::NoMatch) == "None"@,
        confidence_label(Confidence::Low) == "Low"@,
        confidence_label(Confidence::Medium) == "Medium"@,
        confidence_label(Confidence::High) == "High"@,
        confidence_label(Confidence::Definite) == "Definite"@,
{
    reveal_strlit("None");
    reveal_strlit("Low");
    reveal_strlit("Medium");
    reveal_strlit("High");
    reveal_strlit("Definite");
    assert("None"@[0] == 'N' && "High"@[0] == 'H');
    assert("None"@.len() == 4 && "Low"@.len() == 3 && "Medium"@.len() == 6 && "High"@.len() == 4 && "Definite"@.len() == 8);
}

/// One more, wrapping at the largest `u64`.
pub open spec fn inc64(x: u64) -> u64 {
    if x == u64::MAX {
        0
    } else {
        (x + 1) as u64
    }
}

/// One more, wrapping at the largest `u64`.
fn inc64_exec(x: u64) -> (r: u64)
    ensures
        r == inc64(x),
{
    if x == u64::MAX {
        0
    } else {
        x + 1
    }
}

/// The count under a key, zero when there is none.
pub open spec fn count_of(m: Map<Seq<char>, u64>, k: Seq<char>) -> u64 {
    if m.dom().contains(k) {
        m[k]
    } else {
        0
    }
}

/// The counts with one more under `k`.
pub open spec fn bump(m: Map<Seq<char>, u64>, k: Seq<char>) -> Map<Seq<char>, u64> {
    m.insert(k, inc64(count_of(m, k)))
}

/// Adds one under a key.
fn bump_exec(m: &mut StrMap<u64>, k: &str)
    requires
        old(m).wf(),
    ensures
        final(m).wf(),
        final(m).view() == bump(old(m).view(), k@),
{
    let c = match m.get(k) {
        Some(c) => *c,
        None => 0,
    };
    m.insert(owned(k), inc64_exec(c));
}

/// Real-time metrics collector: counters, breakdowns by confidence,
/// strategy and skill, and cache statistics.  Counters wrap at the largest
/// `u64`.
#[derive(Debug)]
pub struct SelectionMetrics {
    total_selections: u64,
    total_timeouts: u64,
    total_no_match: u64,
    by_confidence: StrMap<u64>,
    by_strategy: StrMap<u64>,
    by_skill: StrMap<u64>,
    cache_hits: u64,
    cache_misses: u64,
}

/// The figures of the metrics that are not whole numbers, already written
/// out: latency quantiles and sum in milliseconds (three decimals), rates
/// (four decimals).
#[derive(Debug)]
pub struct LatencyFigures {
    pub p50: String,
    pub p95: String,
    pub p99: String,
    pub latency_sum: String,
    pub trigger_rate: String,
    pub semantic_rate: String,
    pub llm_rate: String,
    pub cache_hit_rate: String,
}

impl SelectionMetrics {
    /// Total selections.
    pub closed spec fn selections(&self) -> u64 {
        self.total_selections
    }

    /// Total timeouts.
    pub closed spec fn timeouts(&self) -> u64 {
        self.total_timeouts
    }

    /// Total selections without a match.
    pub closed spec fn no_matches(&self) -> u64 {
        self.total_no_match
    }

    /// Cache hits.
    pub closed spec fn hits(&self) -> u64 {
        self.cache_hits
    }

    /// Cache misses.
    pub closed spec fn misses(&self) -> u64 {
        self.cache_misses
    }

    /// Selections by confidence label.
    pub closed spec fn confidence_counts(&self) -> Map<Seq<char>, u64> {
        self.by_confidence.view()
    }

    /// Selections by strategy.
    pub closed spec fn strategy_counts(&self) -> Map<Seq<char>, u64> {
        self.by_strategy.view()
    }

    /// Selections by skill.
    pub closed spec fn skill_counts(&self) -> Map<Seq<char>, u64> {
        self.by_skill.view()
    }

    /// Invariant.
    pub closed spec fn wf(&self) -> bool {
        self.by_confidence.wf() && self.by_strategy.wf() && self.by_skill.wf()
    }

    /// A collector with everything at zero.
    pub fn new() -> (r: Self)
        ensures
            r.wf(),
            r.selections() == 0 && r.timeouts() == 0 && r.no_matches() == 0,
            r.hits() == 0 && r.misses() == 0,
            r.confidence_counts() == Map::<Seq<char>, u64>::empty(),
            r.strategy_counts() == Map::<Seq<char>, u64>::empty(),
            r.skill_counts() == Map::<Seq<char>, u64>::empty(),
    {
        SelectionMetrics {
            total_selections: 0,
            total_timeouts: 0,
            total_no_match: 0,
            by_confidence: StrMap::new(),
            by_strategy: StrMap::new(),
            by_skill: StrMap::new(),
            cache_hits: 0,
            cache_misses: 0,
        }
    }

    /// Records a successful selection: one more selection, counted under
    /// its confidence, strategy and skill.
    pub fn record_selection(&mut self, skill: &SkillName, strategy: &str, confidence: Confidence)
        requires
            old(self).wf(),
        ensures
            final(self).wf(),
            final(self).selections() == inc64(old(self).selections()),
            final(self).timeouts() == old(self).timeouts(),
            final(self).no_matches() == old(self).no_matches(),
            final(self).hits() == old(self).hits(),
            final(self).misses() == old(self).misses(),
            final(self).confidence_counts() == bump(old(self).confidence_counts(), confidence_label(confidence)),
            final(self).strategy_counts() == bump(old(self).strategy_counts(), strategy@),
            final(self).skill_counts() == bump(old(self).skill_counts(), skill@),
    {
        self.total_selections = inc64_exec(self.total_selections);
        bump_exec(&mut self.by_confidence, confidence_label_str(confidence));
        bump_exec(&mut self.by_strategy, strategy);
        bump_exec(&mut self.by_skill, skill.as_str());
    }

    /// Records a timeout.
    pub fn record_timeout(&mut self)
        requires
            old(self).wf(),
        ensures
            final(self).wf(),
            final(self).timeouts() == inc64(old(self).timeouts()),
            final(self).selections() == old(self).selections(),
            final(self).no_matches() == old(self).no_matches(),
            final(self).hits() == old(self).hits(),
            final(self).misses() == old(self).misses(),
            final(self).confidence_counts() == old(self).confidence_counts(),
            final(self).strategy_counts() == old(self).strategy_counts(),
            final(self).skill_counts() == old(self).skill_counts(),
    {
        self.total_timeouts = inc64_exec(self.total_timeouts);
    }

    /// Records a selection without a match: one more selection and one more
    /// no-match, counted under the confidence label `None`.
    pub fn record_no_match(&mut self)
        requires
            old(self).wf(),
        ensures
            final(self).wf(),
            final(self).selections() == inc64(old(self).selections()),
            final(self).no_matches() == inc64(old(self).no_matches()),
            final(self).timeouts() == old(self).timeouts(),
            final(self).hits() == old(self).hits(),
            final(self).misses() == old(self).misses(),
            final(self).confidence_counts() == bump(old(self).confidence_counts(), "None"@),
            final(self).strategy_counts() == old(self).strategy_counts(),
            final(self).skill_counts() == old(self).skill_counts(),
    {
        self.total_selections = inc64_exec(self.total_selections);
        self.total_no_match = inc64_exec(self.total_no_match);
        bump_exec(&mut self.by_confidence, "None");
    }

    /// Records a cache hit.
    pub fn record_cache_hit(&mut self)
        ensures
            final(self).hits() == inc64(old(self).hits()),
            final(self).misses() == old(self).misses(),
            final(self).selections() == old(self).selections(),
            final(self).wf() == old(self).wf(),
            final(self).confidence_counts() == old(self).confidence_counts(),
            final(self).strategy_counts() == old(self).strategy_counts(),
            final(self).skill_counts() == old(self).skill_counts(),
    {
        self.cache_hits = inc64_exec(self.cache_hits);
    }

    /// Records a cache miss.
    pub fn record_cache_miss(&mut self)
        ensures
            final(self).misses() == inc64(old(self).misses()),
            final(self).hits() == old(self).hits(),
            final(self).selections() == old(self).selections(),
            final(self).wf() == old(self).wf(),
            final(self).confidence_counts() == old(self).confidence_counts(),
            final(self).strategy_counts() == old(self).strategy_counts(),
            final(self).skill_counts() == old(self).skill_counts(),
    {
        self.cache_misses = inc64_exec(self.cache_misses);
    }

    /// Resets all metrics.
    pub fn reset(&mut self)
        ensures
            final(self).wf(),
            final(self).selections() == 0 && final(self).timeouts() == 0 && final(self).no_matches() == 0,
            final(self).hits() == 0 && final(self).misses() == 0,
            final(self).confidence_counts() == Map::<Seq<char>, u64>::empty(),
            final(self).strategy_counts() == Map::<Seq<char>, u64>::empty(),
            final(self).skill_counts() == Map::<Seq<char>, u64>::empty(),
    {
        *self = SelectionMetrics::new();
    }

    /// Total selections.
    pub fn total_selections(&self) -> (r: u64)
        ensures
            r == self.selections(),
    {
        self.total_selections
    }

    /// Total timeouts.
    pub fn total_timeouts(&self) -> (r: u64)
        ensures
            r == self.timeouts(),
    {
        self.total_timeouts
    }

    /// Total selections without a match.
    pub fn total_no_match(&self) -> (r: u64)
        ensures
            r == self.no_matches(),
    {
        self.total_no_match
    }

    /// Cache hits.
    pub fn cache_hits(&self) -> (r: u64)
        ensures
            r == self.hits(),
    {
        self.cache_hits
    }

    /// Cache misses.
    pub fn cache_misses(&self) -> (r: u64)
        ensures
            r == self.misses(),
    {
        self.cache_misses
    }

    /// Selections by confidence label.
    pub fn by_confidence(&self) -> (r: &StrMap<u64>)
        ensures
            r.view() == self.confidence_counts(),
    {
        &self.by_confidence
    }

    /// Selections by strategy.
    pub fn by_strategy(&self) -> (r: &StrMap<u64>)
        ensures
            r.view() == self.strategy_counts(),
    {
        &self.by_strategy
    }

    /// Selections by skill.
    pub fn by_skill(&self) -> (r: &StrMap<u64>)
        ensures
            r.view() == self.skill_counts(),
    {
        &self.by_skill
    }

    /// Selections made by a strategy (zero when it made none).
    pub fn strategy_count(&self, strategy: &str) -> (r: u64)
        requires
            self.wf(),
        ensures
            r == count_of(self.strategy_counts(), strategy@),
    {
        match self.by_strategy.get(strategy) {
            Some(c) => *c,
            None => 0,
        }
    }
}

impl Default for SelectionMetrics {
    fn default() -> (r: Self)
        ensures
            r.wf(),
            r.selections() == 0,
    {
        SelectionMetrics::new()
    }
}


/// A labelled counter line: `name{label="key"} count`.
pub open spec fn labelled_line(name: Seq<char>, label: Seq<char>, key: Seq<char>, count: u64) -> Seq<char> {
    name + "{"@ + label + "=\""@ + key + "\"} "@ + decimal(count as nat)
}

/// The labelled lines of the entries of a count map, in entry order.
pub open spec fn labelled_lines(name: Seq<char>, label: Seq<char>, es: Seq<(String, u64)>) -> Seq<Seq<char>> {
    Seq::new(es.len(), |i: int| labelled_line(name, label, es[i].0@, es[i].1))
}

/// The labelled lines of the entries at positions `r`, in that order.
pub open spec fn ranked_lines(name: Seq<char>, label: Seq<char>, es: Seq<(String, u64)>, r: Seq<int>) -> Seq<Seq<char>> {
    Seq::new(r.len(), |j: int| labelled_line(name, label, es[r[j]].0@, es[r[j]].1))
}

/// The counts of the entries, in entry order.
pub open spec fn entry_counts(es: Seq<(String, u64)>) -> Seq<u64> {
    Seq::new(es.len(), |i: int| es[i].1)
}

/// `# HELP` and `# TYPE` lines of a metric, then its value line.
pub open spec fn metric_lines(name: Seq<char>, help: Seq<char>, kind: Seq<char>, value: Seq<char>) -> Seq<Seq<char>> {
    seq!["# HELP "@ + name + " "@ + help, "# TYPE "@ + name + " "@ + kind, name + " "@ + value]
}

/// `# HELP` and `# TYPE` lines of a metric.
pub open spec fn header_lines(name: Seq<char>, help: Seq<char>, kind: Seq<char>) -> Seq<Seq<char>> {
    seq!["# HELP "@ + name + " "@ + help, "# TYPE "@ + name + " "@ + kind]
}

/// The lines of the Prometheus text of metrics `m` with figures `f`, the
/// skills listed in the order `r` (positions among the skill entries).
pub open spec fn prometheus_lines(m: SelectionMetrics, f: LatencyFigures, r: Seq<int>) -> Seq<Seq<char>> {
    metric_lines("skm_selections_total"@, "Total number of skill selections"@, "counter"@, decimal(m.selections() as nat))
    + metric_lines("skm_timeouts_total"@, "Total number of selection timeouts"@, "counter"@, decimal(m.timeouts() as nat))
    + metric_lines("skm_no_match_total"@, "Total selections with no matching skill"@, "counter"@, decimal(m.no_matches() as nat))
    + header_lines("skm_selections_by_confidence"@, "Selections by confidence level"@, "counter"@)
    + labelled_lines("skm_selections_by_confidence"@, "confidence"@, m.confidence_entries())
    + header_lines("skm_selections_by_strategy"@, "Selections by strategy"@, "counter"@)
    + labelled_lines("skm_selections_by_strategy"@, "strategy"@, m.strategy_entries())
    + header_lines("skm_skill_selections"@, "Selections per skill"@, "counter"@)
    + ranked_lines("skm_skill_selections"@, "skill"@, m.skill_entries(), r)
    + header_lines("skm_latency_milliseconds"@, "Selection latency in milliseconds"@, "summary"@)
    + seq![
        "skm_latency_milliseconds{quantile=\"0.5\"} "@ + f.p50@,
        "skm_latency_milliseconds{quantile=\"0.95\"} "@ + f.p95@,
        "skm_latency_milliseconds{quantile=\"0.99\"} "@ + f.p99@,
        "skm_latency_milliseconds_sum "@ + f.latency_sum@,
        "skm_latency_milliseconds_count "@ + decimal(m.selections() as nat),
    ]
    + metric_lines("skm_trigger_hit_rate"@, "Fraction of queries resolved by trigger matching"@, "gauge"@, f.trigger_rate@)
    + metric_lines("skm_semantic_hit_rate"@, "Fraction of queries resolved by semantic search"@, "gauge"@, f.semantic_rate@)
    + metric_lines("skm_llm_fallback_rate"@, "Fraction of queries requiring LLM fallback"@, "gauge"@, f.llm_rate@)
    + metric_lines("skm_cache_hits_total"@, "Total cache hits"@, "counter"@, decimal(m.hits() as nat))
    + metric_lines("skm_cache_misses_total"@, "Total cache misses"@, "counter"@, decimal(m.misses() as nat))
    + if m.hits() > 0 || m.misses() > 0 {
        metric_lines("skm_cache_hit_rate"@, "Cache hit rate"@, "gauge"@, f.cache_hit_rate@)
    } else {
        Seq::empty()
    }
}

/// What occurs in either part occurs in a concatenation.
pub broadcast proof fn lemma_in_concat(a: Seq<Seq<char>>, b: Seq<Seq<char>>, x: Seq<char>)
    ensures
        #[trigger] (a + b).contains(x) <== a.contains(x) || b.contains(x),
{
    if a.contains(x) {
        let i = choose|i: int| 0 <= i < a.len() && a[i] == x;
        assert((a + b)[i] == x);
    } else if b.contains(x) {
        let i = choose|i: int| 0 <= i < b.len() && b[i] == x;
        assert((a + b)[a.len() + i] == x);
    }
}

/// The Prometheus text reports what was counted: the selection, timeout,
/// no-match, cache-hit and cache-miss totals; one line per confidence
/// label and per strategy with its count; and the cache hit rate once
/// there was a cache lookup.
pub proof fn law_prometheus_reports_counts(m: SelectionMetrics, f: LatencyFigures, order: Seq<int>)
    requires
        m.wf(),
    ensures
        prometheus_lines(m, f, order).contains("skm_selections_total"@ + " "@ + decimal(m.selections() as nat)),
        prometheus_lines(m, f, order).contains("skm_timeouts_total"@ + " "@ + decimal(m.timeouts() as nat)),
        prometheus_lines(m, f, order).contains("skm_no_match_total"@ + " "@ + decimal(m.no_matches() as nat)),
        prometheus_lines(m, f, order).contains("skm_cache_hits_total"@ + " "@ + decimal(m.hits() as nat)),
        prometheus_lines(m, f, order).contains("skm_cache_misses_total"@ + " "@ + decimal(m.misses() as nat)),
        m.hits() > 0 || m.misses() > 0 ==> prometheus_lines(m, f, order).contains(
            "skm_cache_hit_rate"@ + " "@ + f.cache_hit_rate@,
        ),
        forall|k: Seq<char>|
            #[trigger] m.strategy_counts().dom().contains(k) ==> prometheus_lines(m, f, order).contains(
                labelled_line("skm_selections_by_strategy"@, "strategy"@, k, m.strategy_counts()[k]),
            ),
        forall|k: Seq<char>|
            #[trigger] m.confidence_counts().dom().contains(k) ==> prometheus_lines(m, f, order).contains(
                labelled_line("skm_selections_by_confidence"@, "confidence"@, k, m.confidence_counts()[k]),
            ),
{
    broadcast use lemma_in_concat;
    m.lemma_entries();
    let sel = metric_lines("skm_selections_total"@, "Total number of skill selections"@, "counter"@, decimal(m.selections() as nat));
    assert(sel.contains(sel[2]));
    let tim = metric_lines("skm_timeouts_total"@, "Total number of selection timeouts"@, "counter"@, decimal(m.timeouts() as nat));
    assert(tim.contains(tim[2]));
    let nom = metric_lines("skm_no_match_total"@, "Total selections with no matching skill"@, "counter"@, decimal(m.no_matches() as nat));
    assert(nom.contains(nom[2]));
    let hit = metric_lines("skm_cache_hits_total"@, "Total cache hits"@, "counter"@, decimal(m.hits() as nat));
    assert(hit.contains(hit[2]));
    let mis = metric_lines("skm_cache_misses_total"@, "Total cache misses"@, "counter"@, decimal(m.misses() as nat));
    assert(mis.contains(mis[2]));
    if m.hits() > 0 || m.misses() > 0 {
        let rate = metric_lines("skm_cache_hit_rate"@, "Cache hit rate"@, "gauge"@, f.cache_hit_rate@);
        assert(rate.contains(rate[2]));
    }
    assert forall|k: Seq<char>|
        #[trigger] m.strategy_counts().dom().contains(k) implies prometheus_lines(m, f, order).contains(
            labelled_line("skm_selections_by_strategy"@, "strategy"@, k, m.strategy_counts()[k]),
        ) by {
        let es = m.strategy_entries();
        let i = choose|i: int| 0 <= i < es.len() && es[i].0@ == k;
        let ls = labelled_lines("skm_selections_by_strategy"@, "strategy"@, es);
        assert(m.strategy_counts()[es[i].0@] == es[i].1);
        assert(ls[i] == labelled_line("skm_selections_by_strategy"@, "strategy"@, k, m.strategy_counts()[k]));
        assert(ls.contains(ls[i]));
    }
    assert forall|k: Seq<char>|
        #[trigger] m.confidence_counts().dom().contains(k) implies prometheus_lines(m, f, order).contains(
            labelled_line("skm_selections_by_confidence"@, "confidence"@, k, m.confidence_counts()[k]),
        ) by {
        let es = m.confidence_entries();
        let i = choose|i: int| 0 <= i < es.len() && es[i].0@ == k;
        let ls = labelled_lines("skm_selections_by_confidence"@, "confidence"@, es);
        assert(m.confidence_counts()[es[i].0@] == es[i].1);
        assert(ls[i] == labelled_line("skm_selections_by_confidence"@, "confidence"@, k, m.confidence_counts()[k]));
        assert(ls.contains(ls[i]));
    }
}

/// What occurs in a concatenation occurs in one of its parts.
pub broadcast proof fn lemma_concat_has_either(a: Seq<Seq<char>>, b: Seq<Seq<char>>, x: Seq<char>)
    ensures
        #[trigger] (a + b).contains(x) ==> a.contains(x) || b.contains(x),
{
    if (a + b).contains(x) {
        let i = choose|i: int| 0 <= i < (a + b).len() && (a + b)[i] == x;
        if i < a.len() {
            assert(a[i] == x);
        } else {
            assert(b[i - a.len()] == x);
        }
    }
}

/// The lines of a metric do not hold a text that starts otherwise than
/// `#` and differs from the metric's name at position `k`.
proof fn lemma_metric_lacks(n: Seq<char>, h: Seq<char>, kind: Seq<char>, v: Seq<char>, t: Seq<char>, k: int)
    requires
        0 <= k < n.len(),
        k < t.len(),
        n[k] != t[k],
        t.len() > 0 && t[0] != '#',
    ensures
        !metric_lines(n, h, kind, v).contains(t),
{
    reveal_strlit("# HELP ");
    reveal_strlit("# TYPE ");
    let ls = metric_lines(n, h, kind, v);
    assert(ls[0][0] == '#');
    assert(ls[1][0] == '#');
    assert(ls[2][k] == n[k]);
}

/// The header lines of a metric do not hold a text that starts otherwise
/// than `#`.
proof fn lemma_header_lacks(n: Seq<char>, h: Seq<char>, kind: Seq<char>, t: Seq<char>)
    requires
        t.len() > 0 && t[0] != '#',
    ensures
        !header_lines(n, h, kind).contains(t),
{
    reveal_strlit("# HELP ");
    reveal_strlit("# TYPE ");
    let ls = header_lines(n, h, kind);
    assert(ls[0][0] == '#');
    assert(ls[1][0] == '#');
}

/// Labelled lines do not hold a text that differs from their metric's
/// name at position `k`.
proof fn lemma_labelled_lacks(name: Seq<char>, label: Seq<char>, es: Seq<(String, u64)>, r: Seq<int>, t: Seq<char>, k: int)
    requires
        0 <= k < name.len(),
        k < t.len(),
        name[k] != t[k],
    ensures
        !labelled_lines(name, label, es).contains(t),
        !ranked_lines(name, label, es, r).contains(t),
{
    assert forall|i: int| 0 <= i < es.len() implies labelled_lines(name, label, es)[i] != t by {
        assert(labelled_lines(name, label, es)[i][k] == name[k]);
    }
    assert forall|j: int| 0 <= j < r.len() implies ranked_lines(name, label, es, r)[j] != t by {
        assert(ranked_lines(name, label, es, r)[j][k] == name[k]);
    }
}

/// The Prometheus text has a cache hit rate line exactly when there was a
/// cache lookup (a hit or a miss).
pub proof fn law_prometheus_rate_line_iff_lookup(m: SelectionMetrics, f: LatencyFigures, order: Seq<int>)
    ensures
        prometheus_lines(m, f, order).contains("skm_cache_hit_rate"@ + " "@ + f.cache_hit_rate@) <==> (m.hits() > 0
            || m.misses() > 0),
{
    broadcast use lemma_in_concat, lemma_concat_has_either;
    let t = "skm_cache_hit_rate"@ + " "@ + f.cache_hit_rate@;
    reveal_strlit("skm_cache_hit_rate");
    reveal_strlit(" ");
    if m.hits() > 0 || m.misses() > 0 {
        let rate = metric_lines("skm_cache_hit_rate"@, "Cache hit rate"@, "gauge"@, f.cache_hit_rate@);
        assert(rate.contains(rate[2]));
    } else {
        assert(t[0] == 's' && t[4] == 'c' && t[10] == 'h' && t[13] == '_');
        reveal_strlit("skm_selections_total");
        reveal_strlit("skm_timeouts_total");
        reveal_strlit("skm_no_match_total");
        reveal_strlit("skm_selections_by_confidence");
        reveal_strlit("skm_selections_by_strategy");
        reveal_strlit("skm_skill_selections");
        reveal_strlit("skm_latency_milliseconds");
        reveal_strlit("skm_trigger_hit_rate");
        reveal_strlit("skm_semantic_hit_rate");
        reveal_strlit("skm_llm_fallback_rate");
        reveal_strlit("skm_cache_hits_total");
        reveal_strlit("skm_cache_misses_total");
        reveal_strlit("skm_latency_milliseconds{quantile=\"0.5\"} ");
        reveal_strlit("skm_latency_milliseconds{quantile=\"0.95\"} ");
        reveal_strlit("skm_latency_milliseconds{quantile=\"0.99\"} ");
        reveal_strlit("skm_latency_milliseconds_sum ");
        reveal_strlit("skm_latency_milliseconds_count ");
        lemma_metric_lacks("skm_selections_total"@, "Total number of skill selections"@, "counter"@, decimal(m.selections() as nat), t, 4);
        lemma_metric_lacks("skm_timeouts_total"@, "Total number of selection timeouts"@, "counter"@, decimal(m.timeouts() as nat), t, 4);
        lemma_metric_lacks("skm_no_match_total"@, "Total selections with no matching skill"@, "counter"@, decimal(m.no_matches() as nat), t, 4);
        lemma_header_lacks("skm_selections_by_confidence"@, "Selections by confidence level"@, "counter"@, t);
        lemma_labelled_lacks("skm_selections_by_confidence"@, "confidence"@, m.confidence_entries(), order, t, 4);
        lemma_header_lacks("skm_selections_by_strategy"@, "Selections by strategy"@, "counter"@, t);
        lemma_labelled_lacks("skm_selections_by_strategy"@, "strategy"@, m.strategy_entries(), order, t, 4);
        lemma_header_lacks("skm_skill_selections"@, "Selections per skill"@, "counter"@, t);
        lemma_labelled_lacks("skm_skill_selections"@, "skill"@, m.skill_entries(), order, t, 4);
        lemma_header_lacks("skm_latency_milliseconds"@, "Selection latency in milliseconds"@, "summary"@, t);
        let lat = seq![
            "skm_latency_milliseconds{quantile=\"0.5\"} "@ + f.p50@,
            "skm_latency_milliseconds{quantile=\"0.95\"} "@ + f.p95@,
            "skm_latency_milliseconds{quantile=\"0.99\"} "@ + f.p99@,
            "skm_latency_milliseconds_sum "@ + f.latency_sum@,
            "skm_latency_milliseconds_count "@ + decimal(m.selections() as nat),
        ];
        assert forall|i: int| 0 <= i < lat.len() implies lat[i] != t by {
            assert(lat[i][4] == 'l');
        }
        lemma_metric_lacks("skm_trigger_hit_rate"@, "Fraction of queries resolved by trigger matching"@, "gauge"@, f.trigger_rate@, t, 4);
        lemma_metric_lacks("skm_semantic_hit_rate"@, "Fraction of queries resolved by semantic search"@, "gauge"@, f.semantic_rate@, t, 4);
        lemma_metric_lacks("skm_llm_fallback_rate"@, "Fraction of queries requiring LLM fallback"@, "gauge"@, f.llm_rate@, t, 4);
        lemma_metric_lacks("skm_cache_hits_total"@, "Total cache hits"@, "counter"@, decimal(m.hits() as nat), t, 13);
        lemma_metric_lacks("skm_cache_misses_total"@, "Total cache misses"@, "counter"@, decimal(m.misses() as nat), t, 10);
        assert(!prometheus_lines(m, f, order).contains(t));
    }
}

/// The lines of the short text format of metrics `m` with figures `f`.
pub open spec fn compact_lines(m: SelectionMetrics, f: LatencyFigures) -> Seq<Seq<char>> {
    seq![
        "ase_selections_total "@ + decimal(m.selections() as nat),
        "ase_timeouts_total "@ + decimal(m.timeouts() as nat),
    ]
    + labelled_lines("ase_selections_by_confidence"@, "confidence"@, m.confidence_entries())
    + labelled_lines("ase_selections_by_strategy"@, "strategy"@, m.strategy_entries())
    + seq![
        "ase_latency_p50_ms "@ + f.p50@,
        "ase_latency_p95_ms "@ + f.p95@,
        "ase_latency_p99_ms "@ + f.p99@,
    ]
}

/// Appends the `# HELP` and `# TYPE` lines of a metric, then its value line.
fn push_metric(lines: &mut Vec<String>, name: &str, help: &str, kind: &str, value: &str)
    ensures
        views(final(lines)@) == views(old(lines)@) + metric_lines(name@, help@, kind@, value@),
{
    let ghost l0 = views(lines@);
    push_header(lines, name, help, kind);
    let mut v = owned(name);
    push_str(&mut v, " ");
    push_str(&mut v, value);
    let ghost l1 = lines@;
    lines.push(v);
    assert(views(lines@) =~= views(l1).push(v@));
    assert(views(lines@) =~= l0 + metric_lines(name@, help@, kind@, value@));
}

/// Appends the `# HELP` and `# TYPE` lines of a metric.
fn push_header(lines: &mut Vec<String>, name: &str, help: &str, kind: &str)
    ensures
        views(final(lines)@) == views(old(lines)@) + header_lines(name@, help@, kind@),
{
    let ghost l0 = views(lines@);
    let mut h = owned("# HELP ");
    push_str(&mut h, name);
    push_str(&mut h, " ");
    push_str(&mut h, help);
    let mut t = owned("# TYPE ");
    push_str(&mut t, name);
    push_str(&mut t, " ");
    push_str(&mut t, kind);
    let ghost a = lines@;
    lines.push(h);
    assert(views(lines@) =~= views(a).push(h@));
    let ghost b = lines@;
    lines.push(t);
    assert(views(lines@) =~= views(b).push(t@));
    assert(views(lines@) =~= l0 + header_lines(name@, help@, kind@));
}

/// The labelled line of a key and count.
fn labelled(name: &str, label: &str, key: &str, count: u64) -> (r: String)
    ensures
        r@ == labelled_line(name@, label@, key@, count),
{
    let mut v = owned(name);
    push_str(&mut v, "{");
    push_str(&mut v, label);
    push_str(&mut v, "=\"");
    push_str(&mut v, key);
    push_str(&mut v, "\"} ");
    push_str(&mut v, decimal_string(count).as_str());
    v
}

/// Appends the labelled lines of all entries of a count map.
fn push_labelled(lines: &mut Vec<String>, name: &str, label: &str, m: &StrMap<u64>)
    ensures
        views(final(lines)@) == views(old(lines)@) + labelled_lines(name@, label@, m.entries()),
{
    let ghost l0 = views(lines@);
    let ghost es = m.entries();
    let mut i: usize = 0;
    let n = m.entry_count();
    while i < n
        invariant
            i <= n,
            n == es.len(),
            es == m.entries(),
            views(lines@) == l0 + labelled_lines(name@, label@, es).take(i as int),
        decreases n - i,
    {
        let (k, c) = m.entry_at(i);
        let line = labelled(name, label, k.as_str(), *c);
        let ghost a = lines@;
        lines.push(line);
        assert(views(lines@) =~= views(a).push(line@));
        assert(labelled_lines(name@, label@, es).take(i + 1) =~= labelled_lines(name@, label@, es).take(i as int).push(line@));
        i += 1;
    }
    assert(labelled_lines(name@, label@, es).take(i as int) =~= labelled_lines(name@, label@, es));
}

/// The entries `es` list the counts `m`: every counted name once, with its
/// count, and no other name.
pub open spec fn entries_hold(es: Seq<(String, u64)>, m: Map<Seq<char>, u64>) -> bool {
    &&& forall|k: Seq<char>| #[trigger] m.dom().contains(k) <==> exists|i: int| 0 <= i < es.len() && es[i].0@ == k
    &&& forall|i: int| 0 <= i < es.len() ==> #[trigger] m[es[i].0@] == es[i].1
    &&& forall|i: int, j: int| 0 <= i < j < es.len() ==> #[trigger] es[i].0@ != #[trigger] es[j].0@
}

impl SelectionMetrics {
    /// The confidence counts in entry order.
    pub closed spec fn confidence_entries(&self) -> Seq<(String, u64)> {
        self.by_confidence.entries()
    }

    /// The strategy counts in entry order.
    pub closed spec fn strategy_entries(&self) -> Seq<(String, u64)> {
        self.by_strategy.entries()
    }

    /// The skill counts in entry order.
    pub closed spec fn skill_entries(&self) -> Seq<(String, u64)> {
        self.by_skill.entries()
    }

    /// The entry lists hold the counts: each counted name once, with its
    /// count, and nothing else.
    pub proof fn lemma_entries(&self)
        requires
            self.wf(),
        ensures
            entries_hold(self.confidence_entries(), self.confidence_counts()),
            entries_hold(self.strategy_entries(), self.strategy_counts()),
            entries_hold(self.skill_entries(), self.skill_counts()),
    {
        self.by_confidence.lemma_view();
        self.by_confidence.lemma_keys_distinct();
        self.by_strategy.lemma_view();
        self.by_strategy.lemma_keys_distinct();
        self.by_skill.lemma_view();
        self.by_skill.lemma_keys_distinct();
    }

    /// The metrics in the Prometheus text format: the counters, the
    /// breakdowns by confidence and strategy, the 20 most selected skills
    /// (most first, earlier first among equals), the latency figures, the
    /// hit rates and the cache counters (and the cache hit rate once there
    /// was a cache lookup), one line each, joined by newlines.
    pub fn to_prometheus(&self, figures: &LatencyFigures) -> (r: String)
        ensures
            exists|order: Seq<int>|
                {
                    &&& is_ranking(nat_scores(entry_counts(self.skill_entries())), 0, order, 20)
                    &&& r@ == joined(prometheus_lines(*self, *figures, order), "\n"@)
                },
    {
        let mut lines: Vec<String> = Vec::new();
        push_metric(&mut lines, "skm_selections_total", "Total number of skill selections", "counter", decimal_string(self.total_selections).as_str());
        push_metric(&mut lines, "skm_timeouts_total", "Total number of selection timeouts", "counter", decimal_string(self.total_timeouts).as_str());
        push_metric(&mut lines, "skm_no_match_total", "Total selections with no matching skill", "counter", decimal_string(self.total_no_match).as_str());
        push_header(&mut lines, "skm_selections_by_confidence", "Selections by confidence level", "counter");
        push_labelled(&mut lines, "skm_selections_by_confidence", "confidence", &self.by_confidence);
        push_header(&mut lines, "skm_selections_by_strategy", "Selections by strategy", "counter");
        push_labelled(&mut lines, "skm_selections_by_strategy", "strategy", &self.by_strategy);
        push_header(&mut lines, "skm_skill_selections", "Selections per skill", "counter");
        // the 20 most selected skills
        let ghost se = self.by_skill.entries();
        let n = self.by_skill.entry_count();
        let mut counts: Vec<u64> = Vec::new();
        let mut i: usize = 0;
        while i < n
            invariant
                i <= n,
                n == se.len(),
                se == self.by_skill.entries(),
                counts@ == entry_counts(se).take(i as int),
            decreases n - i,
        {
            let (_, c) = self.by_skill.entry_at(i);
            counts.push(*c);
            assert(counts@ =~= entry_counts(se).take(i + 1));
            i += 1;
        }
        assert(counts@ =~= entry_counts(se));
        let order = top_ranked(&counts, 0, 20);
        let ghost ord = positions(order@);
        let ghost l_before = views(lines@);
        let mut j: usize = 0;
        while j < order.len()
            invariant
                j <= order@.len(),
                ord == positions(order@),
                se == self.by_skill.entries(),
                n == se.len(),
                is_ranking(nat_scores(entry_counts(se)), 0, ord, 20),
                views(lines@) == l_before + ranked_lines("skm_skill_selections"@, "skill"@, se, ord).take(j as int),
            decreases order.len() - j,
        {
            assert(ord[j as int] == order@[j as int] as int);
            let (k, c) = self.by_skill.entry_at(order[j]);
            let line = labelled("skm_skill_selections", "skill", k.as_str(), *c);
            let ghost a = lines@;
            lines.push(line);
            assert(views(lines@) =~= views(a).push(line@));
            assert(ranked_lines("skm_skill_selections"@, "skill"@, se, ord).take(j + 1) =~= ranked_lines("skm_skill_selections"@, "skill"@, se, ord).take(j as int).push(line@));
            j += 1;
        }
        assert(ranked_lines("skm_skill_selections"@, "skill"@, se, ord).take(j as int) =~= ranked_lines("skm_skill_selections"@, "skill"@, se, ord));
        push_header(&mut lines, "skm_latency_milliseconds", "Selection latency in milliseconds", "summary");
        let ghost l_lat = views(lines@);
        let mut q1 = owned("skm_latency_milliseconds{quantile=\"0.5\"} ");
        push_str(&mut q1, figures.p50.as_str());
        let mut q2 = owned("skm_latency_milliseconds{quantile=\"0.95\"} ");
        push_str(&mut q2, figures.p95.as_str());
        let mut q3 = owned("skm_latency_milliseconds{quantile=\"0.99\"} ");
        push_str(&mut q3, figures.p99.as_str());
        let mut q4 = owned("skm_latency_milliseconds_sum ");
        push_str(&mut q4, figures.latency_sum.as_str());
        let mut q5 = owned("skm_latency_milliseconds_count ");
        push_str(&mut q5, decimal_string(self.total_selections).as_str());
        let ghost a1 = lines@;
        lines.push(q1);
        lines.push(q2);
        lines.push(q3);
        lines.push(q4);
        lines.push(q5);
        assert(views(lines@) =~= l_lat + seq![q1@, q2@, q3@, q4@, q5@]) by {
            assert(views(lines@) =~= views(a1).push(q1@).push(q2@).push(q3@).push(q4@).push(q5@));
        }
        push_metric(&mut lines, "skm_trigger_hit_rate", "Fraction of queries resolved by trigger matching", "gauge", figures.trigger_rate.as_str());
        push_metric(&mut lines, "skm_semantic_hit_rate", "Fraction of queries resolved by semantic search", "gauge", figures.semantic_rate.as_str());
        push_metric(&mut lines, "skm_llm_fallback_rate", "Fraction of queries requiring LLM fallback", "gauge", figures.llm_rate.as_str());
        push_metric(&mut lines, "skm_cache_hits_total", "Total cache hits", "counter", decimal_string(self.cache_hits).as_str());
        push_metric(&mut lines, "skm_cache_misses_total", "Total cache misses", "counter", decimal_string(self.cache_misses).as_str());
        if self.cache_hits > 0 || self.cache_misses > 0 {
            push_metric(&mut lines, "skm_cache_hit_rate", "Cache hit rate", "gauge", figures.cache_hit_rate.as_str());
        }
        assert(views(lines@) =~= prometheus_lines(*self, *figures, ord));
        join_with(&lines, "\n")
    }

    /// The metrics in the short text format of the `ase` tools: the
    /// selection and timeout counters, the breakdowns by confidence and by
    /// strategy, and the latency quantiles, one line each, joined by
    /// newlines.
    pub fn to_prometheus_compact(&self, figures: &LatencyFigures) -> (r: String)
        ensures
            r@ == joined(compact_lines(*self, *figures), "\n"@),
    {
        let mut lines: Vec<String> = Vec::new();
        let mut a = owned("ase_selections_total ");
        push_str(&mut a, decimal_string(self.total_selections).as_str());
        let mut b = owned("ase_timeouts_total ");
        push_str(&mut b, decimal_string(self.total_timeouts).as_str());
        lines.push(a);
        lines.push(b);
        let ghost l0 = views(lines@);
        assert(l0 =~= seq![
            "ase_selections_total "@ + decimal(self.selections() as nat),
            "ase_timeouts_total "@ + decimal(self.timeouts() as nat),
        ]);
        push_labelled(&mut lines, "ase_selections_by_confidence", "confidence", &self.by_confidence);
        push_labelled(&mut lines, "ase_selections_by_strategy", "strategy", &self.by_strategy);
        let ghost l1 = views(lines@);
        let mut p = owned("ase_latency_p50_ms ");
        push_str(&mut p, figures.p50.as_str());
        let mut q = owned("ase_latency_p95_ms ");
        push_str(&mut q, figures.p95.as_str());
        let mut t = owned("ase_latency_p99_ms ");
        push_str(&mut t, figures.p99.as_str());
        lines.push(p);
        lines.push(q);
        lines.push(t);
        assert(views(lines@) =~= l1 + seq![
            "ase_latency_p50_ms "@ + figures.p50@,
            "ase_latency_p95_ms "@ + figures.p95@,
            "ase_latency_p99_ms "@ + figures.p99@,
        ]);
        assert(views(lines@) =~= compact_lines(*self, *figures));
        join_with(&lines, "\n")
    }
}


// ---------------------------------------------------------------------------
// Usage analytics
// ---------------------------------------------------------------------------

/// User feedback on a selection.
#[derive(Debug)]
pub enum Feedback {
    /// Selection was correct.
    Correct,
    /// Selection was incorrect.
    Incorrect {
        /// What skill should have been selected.
        expected: Option<SkillName>,
    },
    /// Selection was partially correct.
    Partial { reason: String },
}

/// A recorded selection event.  The score is kept as the bit pattern of
/// an `f32`.
#[derive(Debug)]
pub struct SelectionEvent {
    /// Timestamp.
    pub timestamp: std::time::SystemTime,
    /// User query.
    pub query: String,
    /// Selected skill (if any).
    pub selected_skill: Option<SkillName>,
    /// Bits of the selection score (`f32::to_bits`), if any.
    pub score_bits: Option<u32>,
    /// Confidence level.
    pub confidence: Option<Confidence>,
    /// Strategy that produced the result.
    pub strategy: Option<String>,
    /// Latency in milliseconds.
    pub latency_ms: u64,
    /// User feedback (if any).
    pub feedback: Option<Feedback>,
    /// Custom metadata.
    pub metadata: StrMap<String>,
}

/// A copy of an optional skill name.
fn copy_name(n: &Option<SkillName>) -> (r: Option<SkillName>)
    ensures
        match (r, *n) {
            (Some(a), Some(b)) => a@ == b@,
            (None, None) => true,
            _ => false,
        },
{
    match n {
        Some(s) => Some(s.duplicate()),
        None => None,
    }
}

/// `a` is a copy of `b`: the same fields, names and texts by their views.
pub open spec fn same_event(a: SelectionEvent, b: SelectionEvent) -> bool {
    &&& a.timestamp == b.timestamp
    &&& a.query == b.query
    &&& match (a.selected_skill, b.selected_skill) {
        (Some(x), Some(y)) => x@ == y@,
        (None, None) => true,
        _ => false,
    }
    &&& a.score_bits == b.score_bits
    &&& a.confidence == b.confidence
    &&& a.strategy == b.strategy
    &&& a.latency_ms == b.latency_ms
    &&& match (a.feedback, b.feedback) {
        (Some(Feedback::Correct), Some(Feedback::Correct)) => true,
        (Some(Feedback::Incorrect { expected: x }), Some(Feedback::Incorrect { expected: y })) => match (x, y) {
            (Some(p), Some(q)) => p@ == q@,
            (None, None) => true,
            _ => false,
        },
        (Some(Feedback::Partial { reason: x }), Some(Feedback::Partial { reason: y })) => x == y,
        (None, None) => true,
        _ => false,
    }
    &&& a.metadata.entries() == b.metadata.entries()
}

impl SelectionEvent {
    /// A copy of the event.
    pub fn copy(&self) -> (r: SelectionEvent)
        ensures
            same_event(r, *self),
    {
        let feedback = match &self.feedback {
            Some(Feedback::Correct) => Some(Feedback::Correct),
            Some(Feedback::Incorrect { expected }) => Some(Feedback::Incorrect { expected: copy_name(expected) }),
            Some(Feedback::Partial { reason }) => Some(Feedback::Partial { reason: reason.clone() }),
            None => None,
        };
        let strategy = match &self.strategy {
            Some(s) => Some(s.clone()),
            None => None,
        };
        SelectionEvent {
            timestamp: self.timestamp,
            query: self.query.clone(),
            selected_skill: copy_name(&self.selected_skill),
            score_bits: self.score_bits,
            confidence: self.confidence,
            strategy,
            latency_ms: self.latency_ms,
            feedback,
            metadata: self.metadata.duplicate(),
        }
    }
}

/// Storage backend for analytics.
pub trait AnalyticsStore {
    /// Whether the store can take another event.  A store that states
    /// nothing of itself always can.
    open spec fn can_record(&self) -> bool {
        true
    }

    /// Whether the store states what it holds (`recorded`).  A store that
    /// states nothing of itself does not, and then its methods promise
    /// nothing.
    open spec fn tracks(&self) -> bool {
        false
    }

    /// The events the store holds, oldest first (meaningful when it
    /// `tracks`).
    open spec fn recorded(&self) -> Seq<SelectionEvent> {
        Seq::empty()
    }

    /// Record a selection event: a tracking store then holds it as its
    /// newest event.
    fn record(&mut self, event: SelectionEvent) -> (r: Result<(), crate::error::LearnError>)
        requires
            old(self).can_record(),
        ensures
            old(self).tracks() ==> final(self).tracks() && final(self).can_record() == old(self).can_record(),
            old(self).tracks() && r is Ok ==> final(self).recorded().len() > 0 && final(self).recorded().last()
                == event,
    ;

    /// Query recent events: for a tracking store, copies of its `limit`
    /// newest events, oldest first.
    fn query_recent(&self, limit: usize) -> (r: Result<Vec<SelectionEvent>, crate::error::LearnError>)
        ensures
            self.tracks() ==> (r matches Ok(v) ==> copies(v@, last_n(self.recorded(), limit as nat))),
    ;

    /// Query events for a specific skill: for a tracking store, copies of
    /// the `limit` newest events that selected it, oldest first.
    fn query_by_skill(&self, skill: &SkillName, limit: usize) -> (r: Result<Vec<SelectionEvent>, crate::error::LearnError>)
        ensures
            self.tracks() ==> (r matches Ok(v) ==> copies(v@, last_n(events_of(self.recorded(), skill@), limit as nat))),
    ;

    /// Get event count: for a tracking store, how many events it holds.
    fn count(&self) -> (r: Result<usize, crate::error::LearnError>)
        ensures
            self.tracks() ==> (r matches Ok(n) ==> n == self.recorded().len()),
    ;
}

/// The last `limit` events of a list (all of them when there are fewer).
pub open spec fn last_n(s: Seq<SelectionEvent>, limit: nat) -> Seq<SelectionEvent> {
    if s.len() <= limit {
        s
    } else {
        s.skip(s.len() - limit)
    }
}

/// The events whose selected skill is `skill`, in order.
pub open spec fn events_of(s: Seq<SelectionEvent>, skill: Seq<char>) -> Seq<SelectionEvent> {
    s.filter(selected_is(skill))
}

/// Whether an event selected the skill named `skill`.
pub open spec fn selected_is(skill: Seq<char>) -> spec_fn(SelectionEvent) -> bool {
    |e: SelectionEvent| e.selected_skill matches Some(n) && n@ == skill
}

/// `r` is a copy of `s`, event for event.
pub open spec fn copies(r: Seq<SelectionEvent>, s: Seq<SelectionEvent>) -> bool {
    r.len() == s.len() && forall|i: int| 0 <= i < r.len() ==> same_event(#[trigger] r[i], s[i])
}

/// In-memory analytics store keeping the most recent events, at most a
/// given number.
#[derive(Debug)]
pub struct InMemoryAnalyticsStore {
    events: Vec<SelectionEvent>,
    max_events: usize,
}

impl InMemoryAnalyticsStore {
    /// The stored events, oldest first.
    pub closed spec fn events_spec(&self) -> Seq<SelectionEvent> {
        self.events@
    }

    /// The most events kept.
    pub closed spec fn capacity(&self) -> nat {
        self.max_events as nat
    }

    /// Invariant: never more events than the capacity.
    pub closed spec fn wf(&self) -> bool {
        self.events@.len() <= self.max_events
    }

    /// A new empty store keeping at most `max_events` events (a store of
    /// capacity 0 holds nothing and cannot record).
    pub fn new(max_events: usize) -> (r: Self)
        ensures
            r.wf(),
            r.capacity() == max_events,
            r.events_spec().len() == 0,
    {
        InMemoryAnalyticsStore { events: Vec::new(), max_events }
    }

}

impl Default for InMemoryAnalyticsStore {
    fn default() -> (r: Self)
        ensures
            r.wf(),
            r.capacity() == 10000,
            r.events_spec().len() == 0,
    {
        InMemoryAnalyticsStore::new(10000)
    }
}

impl AnalyticsStore for InMemoryAnalyticsStore {
    /// A store of capacity 0 cannot record.
    open spec fn can_record(&self) -> bool {
        self.capacity() > 0
    }

    /// The store states what it holds.
    open spec fn tracks(&self) -> bool {
        true
    }

    /// The stored events.
    open spec fn recorded(&self) -> Seq<SelectionEvent> {
        self.events_spec()
    }

    /// Records an event, dropping the oldest one when the store is full.
    fn record(&mut self, event: SelectionEvent) -> (r: Result<(), crate::error::LearnError>)
        ensures
            old(self).wf() ==> final(self).wf(),
            final(self).capacity() == old(self).capacity(),
            old(self).wf() ==> final(self).events_spec() == (if old(self).events_spec().len() >= old(self).capacity() {
                old(self).events_spec().drop_first()
            } else {
                old(self).events_spec()
            }).push(event),
            r is Ok,
    {
        if self.events.len() >= self.max_events {
            self.events.remove(0);
        }
        self.events.push(event);
        Ok(())
    }

    /// Copies of the most recent events (at most `limit`), oldest first.
    fn query_recent(&self, limit: usize) -> (r: Result<Vec<SelectionEvent>, crate::error::LearnError>)
        ensures
            r matches Ok(v) && copies(v@, last_n(self.events_spec(), limit as nat)),
    {
        let n = self.events.len();
        let start = n - (if limit < n {
            limit
        } else {
            n
        });
        let mut out: Vec<SelectionEvent> = Vec::new();
        let mut k: usize = start;
        while k < n
            invariant
                start <= k <= n,
                n == self.events@.len(),
                out@.len() == k - start,
                forall|j: int| 0 <= j < out@.len() ==> same_event(#[trigger] out@[j], self.events@[start + j]),
            decreases n - k,
        {
            out.push(self.events[k].copy());
            k += 1;
        }
        assert(last_n(self.events@, limit as nat) =~= self.events@.skip(start as int));
        Ok(out)
    }

    /// Copies of the most recent events for a skill (at most `limit`),
    /// oldest first.
    fn query_by_skill(&self, skill: &SkillName, limit: usize) -> (r: Result<Vec<SelectionEvent>, crate::error::LearnError>)
        ensures
            r matches Ok(v) && copies(v@, last_n(events_of(self.events_spec(), skill@), limit as nat)),
    {
        let mut matching: Vec<usize> = Vec::new();
        let ghost mut filtered: Seq<SelectionEvent> = Seq::empty();
        let mut i: usize = 0;
        while i < self.events.len()
            invariant
                i <= self.events@.len(),
                filtered == events_of(self.events@.take(i as int), skill@),
                matching@.len() == filtered.len(),
                forall|j: int| 0 <= j < matching@.len() ==> #[trigger] matching@[j] < i && self.events@[matching@[j] as int] == filtered[j],
            decreases self.events.len() - i,
        {
            let e = &self.events[i];
            let hit = match &e.selected_skill {
                Some(n) => n.same(skill),
                None => false,
            };
            proof {
                let pre = self.events@.take(i as int);
                assert(self.events@.take(i + 1) =~= pre.push(*e));
                pre.lemma_filter_push(*e, selected_is(skill@));
            }
            if hit {
                matching.push(i);
                proof {
                    filtered = filtered.push(*e);
                }
            }
            i += 1;
        }
        assert(self.events@.take(i as int) =~= self.events@);
        let n = matching.len();
        let start = n - (if limit < n {
            limit
        } else {
            n
        });
        let mut out: Vec<SelectionEvent> = Vec::new();
        let mut k: usize = start;
        while k < n
            invariant
                start <= k <= n,
                n == matching@.len(),
                n == filtered.len(),
                forall|j: int| 0 <= j < n ==> #[trigger] matching@[j] < self.events@.len() && self.events@[matching@[j] as int] == filtered[j],
                out@.len() == k - start,
                forall|j: int| 0 <= j < out@.len() ==> same_event(#[trigger] out@[j], filtered[start + j]),
            decreases n - k,
        {
            out.push(self.events[matching[k]].copy());
            k += 1;
        }
        assert(last_n(filtered, limit as nat) =~= filtered.skip(start as int));
        Ok(out)
    }

    /// The number of stored events.
    fn count(&self) -> (r: Result<usize, crate::error::LearnError>)
        ensures
            r matches Ok(n) && n == self.events_spec().len(),
    {
        Ok(self.events.len())
    }
}

/// Usage analytics over a storage backend.
pub struct UsageAnalytics {
    store: (Box<dyn AnalyticsStore>,),
}

impl UsageAnalytics {
    /// Whether the store can take another event.
    pub closed spec fn can_record(&self) -> bool {
        self.store.0.can_record()
    }

    /// Whether the store states what it holds.
    pub closed spec fn tracks(&self) -> bool {
        self.store.0.tracks()
    }

    /// The events the store holds, oldest first (meaningful when it
    /// tracks them).
    pub closed spec fn recorded(&self) -> Seq<SelectionEvent> {
        self.store.0.recorded()
    }

    /// Analytics over the given store.
    pub fn new(store: Box<dyn AnalyticsStore>) -> (r: Self)
        ensures
            r.can_record() == store.can_record(),
            r.tracks() == store.tracks(),
            r.recorded() == store.recorded(),
    {
        let ghost g = store;
        let held = (store,);
        assert(held.0 == g);
        UsageAnalytics { store: held }
    }

    /// Analytics over a new in-memory store of default capacity, holding
    /// nothing yet.
    pub fn in_memory() -> (r: Self)
        ensures
            r.can_record(),
            r.tracks(),
            r.recorded().len() == 0,
    {
        let m = InMemoryAnalyticsStore::default();
        let store: Box<dyn AnalyticsStore> = Box::new(m);
        let ghost g = store;
        assert(g.can_record() && g.tracks() && g.recorded().len() == 0);
        let held = (store,);
        assert(held.0 == g);
        UsageAnalytics { store: held }
    }

    /// Record an event (handed to the store as it is): a tracking store
    /// then holds it as its newest event.
    pub fn record(&mut self, event: SelectionEvent) -> (r: Result<(), crate::error::LearnError>)
        requires
            old(self).can_record(),
        ensures
            old(self).tracks() ==> final(self).tracks() && final(self).can_record() == old(self).can_record(),
            old(self).tracks() && r is Ok ==> final(self).recorded().len() > 0 && final(self).recorded().last()
                == event,
    {
        self.store.0.record(event)
    }

    /// Get recent events: for a tracking store, copies of its `limit`
    /// newest events, oldest first.
    pub fn recent(&self, limit: usize) -> (r: Result<Vec<SelectionEvent>, crate::error::LearnError>)
        ensures
            self.tracks() ==> (r matches Ok(v) ==> copies(v@, last_n(self.recorded(), limit as nat))),
    {
        self.store.0.query_recent(limit)
    }

    /// Get events for a skill: for a tracking store, copies of the `limit`
    /// newest events that selected it, oldest first.
    pub fn by_skill(&self, skill: &SkillName, limit: usize) -> (r: Result<Vec<SelectionEvent>, crate::error::LearnError>)
        ensures
            self.tracks() ==> (r matches Ok(v) ==> copies(v@, last_n(events_of(self.recorded(), skill@), limit as nat))),
    {
        self.store.0.query_by_skill(skill, limit)
    }

    /// Get total event count: for a tracking store, how many events it
    /// holds.
    pub fn count(&self) -> (r: Result<usize, crate::error::LearnError>)
        ensures
            self.tracks() ==> (r matches Ok(n) ==> n == self.recorded().len()),
    {
        self.store.0.count()
    }
}

} // verus!
