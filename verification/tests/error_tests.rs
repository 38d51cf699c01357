use skm::error::{CoreError, DiscloseError, EmbedError, EnforceError, LearnError, LlmError, ParseError, SelectError, ValidationError};
use skm::schema::SkillName;

#[test]
fn test_error_display() {
    let err = EmbedError::DimensionMismatch { expected: 1024, actual: 384 };
    assert!(err.to_string().contains("1024"));
    assert!(err.to_string().contains("384"));
}

#[test]
fn test_retryable() {
    assert!(EmbedError::RateLimit { retry_after_secs: 60 }.is_retryable());
    assert!(EmbedError::Api { status: 500, message: "Server error".into() }.is_retryable());
    assert!(!EmbedError::InvalidApiKey.is_retryable());
    assert!(!EmbedError::Api { status: 400, message: "Bad request".into() }.is_retryable());
}

#[test]
fn error_test_error_display() {
    let err = DiscloseError::BudgetExceeded { needed: 5000, available: 3000 };
    assert!(err.to_string().contains("5000"));
    assert!(err.to_string().contains("3000"));
    assert_eq!(err.to_string(), "Token budget exceeded: need 5000, have 3000");
}

#[test]
fn select_error_display() {
    let err = SelectError::Timeout("5s exceeded".into());
    assert!(err.to_string().contains("5s"));
}

#[test]
fn test_llm_error() {
    let err = LlmError::ParseError("invalid JSON".into());
    assert!(err.to_string().contains("invalid JSON"));
}

#[test]
fn enforce_error_display() {
    let err = EnforceError::ValidationFailed {
        skill: SkillName::new("test-skill").unwrap(),
        reason: "bad output".into(),
    };
    assert_eq!(err.to_string(), "Validation failed for test-skill: bad output");
}

#[test]
fn test_api_module_compiles() {
    // The library builds and links.
    assert!(true);
}

#[test]
fn error_messages_exact() {
    let n = SkillName::new("pdf").unwrap();
    assert_eq!(CoreError::NotFound(n.clone()).to_string(), "Skill not found: pdf");
    assert_eq!(CoreError::Duplicate(n.clone()).to_string(), "Duplicate skill name: pdf");
    let parse = ParseError::MissingFrontmatter { path: "/x/SKILL.md".into() };
    assert_eq!(parse.to_string(), "Missing YAML frontmatter in /x/SKILL.md");
    assert_eq!(CoreError::from_parse(parse).to_string(), "Parse error in /x/SKILL.md: Missing YAML frontmatter in /x/SKILL.md");
    assert_eq!(
        ValidationError::InvalidNameChar { ch: '@', pos: 5 }.to_string(),
        "Skill name contains invalid character '@' at position 5 (allowed: a-zA-Z0-9._-)"
    );
    assert_eq!(EmbedError::Api { status: 503, message: "down".into() }.to_string(), "API error: 503 - down");
    assert_eq!(
        EmbedError::RateLimit { retry_after_secs: 60 }.to_string(),
        "Rate limit exceeded, retry after 60 seconds"
    );
    assert_eq!(
        SelectError::Llm(LlmError::Timeout).to_string(),
        "LLM error: LLM request timed out"
    );
    assert_eq!(
        DiscloseError::ReferenceNotFound { skill: n, file: "references/a.md".into() }.to_string(),
        "Reference file not found: pdf/references/a.md"
    );
    assert_eq!(EnforceError::Yaml("bad".into()).to_string(), "YAML error: bad");
    assert_eq!(LearnError::Optimizer("x".into()).to_string(), "Optimizer error: x");
}
