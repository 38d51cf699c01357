use skm::llm::{build_prompt, json_span, known_selections, LlmSelection, DEFAULT_SYSTEM_PROMPT};
use skm::schema::{SkillMetadata, SkillName};

fn make_metadata(name: &str, description: &str) -> SkillMetadata {
    SkillMetadata {
        name: SkillName::new(name).unwrap(),
        description: description.to_string(),
        tags: Vec::new(),
        triggers: Vec::new(),
        source_path: String::new(),
        content_hash: 0,
        estimated_tokens: 100,
    }
}

fn selection(name: &str, confidence: f32, reasoning: Option<&str>) -> LlmSelection {
    LlmSelection { name: name.to_string(), confidence_bits: confidence.to_bits(), reasoning: reasoning.map(String::from) }
}

#[test]
fn llm_test_build_prompt() {
    let skills = vec![
        make_metadata("pdf-skill", "Extract text from PDFs"),
        make_metadata("weather-skill", "Get weather info"),
    ];
    let prompt = build_prompt(DEFAULT_SYSTEM_PROMPT, 20, "test query", &skills);
    assert!(prompt.contains("pdf-skill"));
    assert!(prompt.contains("weather-skill"));
    assert!(prompt.contains("test query"));
}

#[test]
fn prompt_exact_and_limited() {
    let skills = vec![make_metadata("a", "first"), make_metadata("b", "second")];
    let prompt = build_prompt("SYS", 1, "q", &skills);
    assert_eq!(
        prompt,
        "SYS\n\nAvailable skills:\n1. a: first\n\nUser query: \"q\"\n\nWhich skill(s) should handle this query? Respond with JSON:"
    );
    let both = build_prompt("SYS", 5, "q", &skills);
    assert!(both.contains("1. a: first\n2. b: second\n"));
}

#[test]
fn json_span_cuts_braces() {
    assert_eq!(json_span("Sure! {\"skills\": []} hope it helps"), "{\"skills\": []}");
    assert_eq!(json_span("no json"), "no json");
    assert_eq!(json_span("{ unterminated"), "{ unterminated");
    assert_eq!(json_span("a {x} b {y} c"), "{x} b {y}");
    assert_eq!(json_span("}{"), "");
}

#[test]
fn test_llm_strategy() {
    let skills = vec![
        make_metadata("pdf-skill", "Extract text from PDFs"),
        make_metadata("weather-skill", "Get weather info"),
    ];
    let parsed = vec![selection("pdf-skill", 0.9, Some("Query mentions PDF"))];
    let results = known_selections(&parsed, &skills);
    assert_eq!(results.len(), 1);
    assert_eq!(results[0].skill.as_str(), "pdf-skill");
    assert_eq!(f32::from_bits(results[0].confidence_bits), 0.9);
    assert!(results[0].reasoning.is_some());
}

#[test]
fn test_llm_strategy_no_match() {
    let skills = vec![make_metadata("pdf-skill", "Extract text from PDFs")];
    let results = known_selections(&[], &skills);
    assert!(results.is_empty());
}

#[test]
fn test_llm_strategy_invalid_skill() {
    let skills = vec![make_metadata("pdf-skill", "Extract text from PDFs")];
    let parsed = vec![selection("nonexistent-skill", 0.9, None), selection("pdf-skill", 0.5, None)];
    let results = known_selections(&parsed, &skills);
    assert_eq!(results.len(), 1);
    assert_eq!(results[0].skill.as_str(), "pdf-skill");
    assert!(results[0].reasoning.is_none());
}
