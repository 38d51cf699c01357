use skm::embed::{cohere_dimensions, index_texts, input_error, openai_dimensions, sends_dimensions, status_error};
use skm::error::EmbedError;
use skm::schema::{SkillMetadata, SkillName};
use skm::select::{cascade_stops, Confidence};

fn meta(name: &str, description: &str, triggers: Vec<&str>, tags: Vec<&str>) -> SkillMetadata {
    SkillMetadata {
        name: SkillName::new(name).unwrap(),
        description: description.to_string(),
        tags: tags.into_iter().map(String::from).collect(),
        triggers: triggers.into_iter().map(String::from).collect(),
        source_path: String::new(),
        content_hash: 0,
        estimated_tokens: 10,
    }
}

#[test]
fn index_texts_four_per_skill() {
    let catalog = vec![meta("a", "Alpha", vec!["x", "y"], vec![]), meta("b", "Beta", vec![], vec!["t"])];
    let texts = index_texts(&catalog);
    assert_eq!(texts, vec!["Alpha", "x, y", "Alpha", "Alpha", "Beta", "Beta", "t", "Beta"]);
}

#[test]
fn model_dimensions() {
    assert_eq!(openai_dimensions("text-embedding-3-small"), 1536);
    assert_eq!(openai_dimensions("text-embedding-3-large"), 3072);
    assert_eq!(openai_dimensions("something-else"), 1536);
    assert!(sends_dimensions("text-embedding-3-small"));
    assert!(!sends_dimensions("text-embedding-ada-002"));
    assert_eq!(cohere_dimensions("embed-english-v3.0"), 1024);
    assert_eq!(cohere_dimensions("embed-multilingual-light-v3.0"), 384);
    assert_eq!(cohere_dimensions("other"), 1024);
}

#[test]
fn input_and_status_errors() {
    assert!(input_error(&["a", "b"]).is_none());
    assert!(matches!(input_error(&["a", ""]), Some(EmbedError::EmptyInput)));
    assert!(matches!(status_error(401, true, String::new()), Some(EmbedError::InvalidApiKey)));
    assert!(matches!(status_error(429, true, String::new()), Some(EmbedError::RateLimit { retry_after_secs: 60 })));
    assert!(status_error(200, true, String::new()).is_none());
    match status_error(401, false, "denied".to_string()) {
        Some(EmbedError::Api { status, message }) => assert_eq!((status, message.as_str()), (401, "denied")),
        _ => panic!("expected an API error"),
    }
}

#[test]
fn cascade_stop_rule() {
    assert!(cascade_stops(false, Confidence::High, &[Confidence::Low, Confidence::Definite]));
    assert!(!cascade_stops(false, Confidence::High, &[Confidence::Medium]));
    assert!(!cascade_stops(false, Confidence::NoMatch, &[]));
    assert!(!cascade_stops(true, Confidence::Low, &[Confidence::Definite]));
}

#[test]
fn cache_misses_are_sent_and_placed_back() {
    let hit = vec![true, false, true, false];
    assert_eq!(skm::embed::cache_misses(&hit), vec![1, 3]);
    assert_eq!(skm::embed::fetched_slots(&hit), vec![None, Some(0), None, Some(1)]);
}
