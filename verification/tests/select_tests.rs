use skm::pattern::CompiledPattern;
use skm::schema::{SkillMetadata, SkillName};
use skm::select::{first_per_skill, Confidence, FewShotEnhanced, FewShotExample, MatchKind, SelectionContext, TriggerStrategy};

fn make_metadata(name: &str, triggers: Vec<&str>) -> SkillMetadata {
    SkillMetadata {
        name: SkillName::new(name).unwrap(),
        description: "Test skill".to_string(),
        tags: Vec::new(),
        triggers: triggers.into_iter().map(String::from).collect(),
        source_path: String::new(),
        content_hash: 0,
        estimated_tokens: 100,
    }
}

fn names_of(skills: &[SkillMetadata]) -> Vec<SkillName> {
    skills.iter().map(|m| m.name.clone()).collect()
}

#[test]
fn test_confidence_ordering() {
    assert!(Confidence::Definite > Confidence::High);
    assert!(Confidence::High > Confidence::Medium);
    assert!(Confidence::Medium > Confidence::Low);
    assert!(Confidence::Low > Confidence::NoMatch);
}

#[test]
fn test_is_high_enough() {
    assert!(Confidence::Definite.is_high_enough(Confidence::High));
    assert!(Confidence::High.is_high_enough(Confidence::High));
    assert!(!Confidence::Medium.is_high_enough(Confidence::High));
}

#[test]
fn test_selection_context() {
    let ctx = SelectionContext::new().with_locale("zh-CN").with_custom("key", "value");
    assert_eq!(ctx.user_locale, Some("zh-CN".to_string()));
    assert_eq!(ctx.custom.get("key"), Some(&"value".to_string()));
}

#[test]
fn test_trigger_keyword_match() {
    let skills = vec![make_metadata("pdf-skill", vec!["pdf", ".pdf", "extract text"])];
    let strategy = TriggerStrategy::from_metadata(&skills).unwrap();
    let results = strategy.matches_for("extract text from pdf", &names_of(&skills));
    assert!(!results.is_empty());
    assert_eq!(results[0].skill.as_str(), "pdf-skill");
    assert_eq!(results[0].kind, MatchKind::Keyword);
    assert_eq!((results[0].keyword_len, results[0].query_len), (3, 21));
    assert_eq!(results[0].confidence, Confidence::High);
}

#[test]
fn test_trigger_no_match() {
    let skills = vec![make_metadata("pdf-skill", vec!["pdf"])];
    let strategy = TriggerStrategy::from_metadata(&skills).unwrap();
    let results = strategy.matches_for("create a spreadsheet", &names_of(&skills));
    assert!(results.is_empty());
}

#[test]
fn test_trigger_regex_match() {
    let skills = vec![make_metadata("email-skill", vec!["^send.*email"])];
    let strategy = TriggerStrategy::from_metadata(&skills).unwrap();
    let results = strategy.matches_for("send an email to john", &names_of(&skills));
    assert!(!results.is_empty());
    assert_eq!(results[0].skill.as_str(), "email-skill");
    assert_eq!(results[0].kind, MatchKind::Pattern);
}

#[test]
fn test_trigger_case_insensitive() {
    let skills = vec![make_metadata("test-skill", vec!["PDF", "Document"])];
    let strategy = TriggerStrategy::from_metadata(&skills).unwrap();
    let results = strategy.matches_for("open the PDF document", &names_of(&skills));
    assert!(!results.is_empty());
}

#[test]
fn test_trigger_implicit_name_match() {
    let skills = vec![make_metadata("weather-lookup", vec![])];
    let strategy = TriggerStrategy::from_metadata(&skills).unwrap();
    let results = strategy.matches_for("use weather-lookup", &names_of(&skills));
    assert!(!results.is_empty());
    assert_eq!(results[0].skill.as_str(), "weather-lookup");
}

#[test]
fn test_trigger_multiple_matches() {
    let skills = vec![
        make_metadata("pdf-skill", vec!["pdf", "document"]),
        make_metadata("doc-skill", vec!["document", "word"]),
    ];
    let strategy = TriggerStrategy::from_metadata(&skills).unwrap();
    let results = strategy.matches_for("open the document", &names_of(&skills));
    assert_eq!(results.len(), 2);
}

#[test]
fn trigger_outside_candidates_is_skipped() {
    let skills = vec![make_metadata("pdf-skill", vec!["pdf"])];
    let strategy = TriggerStrategy::from_metadata(&skills).unwrap();
    assert!(strategy.matches_for("pdf", &Vec::new()).is_empty());
}

#[test]
fn trigger_long_keyword_is_definite() {
    let skills = vec![make_metadata("pdf-skill", vec!["merge pdf"])];
    let strategy = TriggerStrategy::from_metadata(&skills).unwrap();
    let results = strategy.matches_for("MERGE PDF", &names_of(&skills));
    assert_eq!(results[0].confidence, Confidence::Definite);
}

#[test]
fn manual_matcher() {
    let mut strategy = TriggerStrategy::new();
    let name = SkillName::new("calc").unwrap();
    strategy.add_matcher(name.clone(), Vec::new(), vec![CompiledPattern::new("[0-9]+ \\+ [0-9]+").unwrap()]);
    let results = strategy.matches_for("what is 2 + 2", &vec![name]);
    assert_eq!(results.len(), 1);
}

#[test]
fn test_get_relevant_examples() {
    let inner = TriggerStrategy::new();
    let examples = vec![
        FewShotExample::new("extract text from PDF", SkillName::new("pdf-skill").unwrap()),
        FewShotExample::new("what's the weather today", SkillName::new("weather-skill").unwrap()),
        FewShotExample::new("merge two PDFs", SkillName::new("pdf-skill").unwrap()),
    ];
    let strategy = FewShotEnhanced::new(inner, examples);
    let relevant = strategy.get_relevant_examples("extract from PDF file");
    assert!(!relevant.is_empty());
    assert!(relevant.iter().any(|ex| ex.expected_skill.as_str() == "pdf-skill"));
    // "extract", "from", "pdf" occur in the first; "pdf" in the third.
    assert_eq!(relevant.len(), 2);
    assert_eq!(relevant[0].input, "extract text from PDF");
    assert_eq!(relevant[1].input, "merge two PDFs");
}

#[test]
fn relevant_examples_top_k_and_ties() {
    let examples = vec![
        FewShotExample::new("a b", SkillName::new("one").unwrap()),
        FewShotExample::new("a c", SkillName::new("two").unwrap()).with_reasoning("because"),
        FewShotExample::new("a b c", SkillName::new("three").unwrap()),
    ];
    let strategy = FewShotEnhanced::new(TriggerStrategy::new(), examples).with_top_k(2);
    let relevant = strategy.get_relevant_examples("b c");
    assert_eq!(relevant.len(), 2);
    assert_eq!(relevant[0].expected_skill.as_str(), "three");
    assert_eq!(relevant[1].expected_skill.as_str(), "one");
    let lines = strategy.example_lines("c");
    assert_eq!(lines, vec!["Example: \"a c\" -> two (because)".to_string(), "Example: \"a b c\" -> three".to_string()]);
}

#[test]
fn first_result_per_skill_is_kept() {
    let n = |s: &str| SkillName::new(s).unwrap();
    let names = vec![n("a"), n("b"), n("a"), n("c"), n("b")];
    assert_eq!(first_per_skill(&names), vec![0, 1, 3]);
    assert!(first_per_skill(&[]).is_empty());
}
