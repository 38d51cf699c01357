use skm::error::{CoreError, ParseError, ValidationError};
use skm::schema::{estimate_tokens, is_cjk, Skill, SkillName};
use skm::strmap::StrMap;

#[test]
fn test_validation_error_display() {
    let err = ValidationError::EmptyName;
    assert_eq!(err.to_string(), "Skill name cannot be empty");

    let err = ValidationError::NameTooLong { len: 100 };
    assert_eq!(err.to_string(), "Skill name too long: 100 chars (max 64)");

    let err = ValidationError::InvalidNameChar { ch: '@', pos: 5 };
    assert!(err.to_string().contains("@"));
}

#[test]
fn test_parse_error_path() {
    let path = "/test/skill.md".to_string();
    let err = ParseError::MissingFrontmatter { path: path.clone() };
    assert_eq!(err.path(), Some(&path));
}

#[test]
fn test_core_error_from_parse_error() {
    let err = ParseError::MissingFrontmatter { path: "/test/skill.md".to_string() };
    let core_err = CoreError::from_parse(err);
    assert!(matches!(core_err, CoreError::Parse { .. }));
    assert_eq!(
        core_err.to_string(),
        "Parse error in /test/skill.md: Missing YAML frontmatter in /test/skill.md"
    );
}

#[test]
fn test_skill_name_valid() {
    assert!(SkillName::new("pdf-processing").is_ok());
    assert!(SkillName::new("my_skill").is_ok());
    assert!(SkillName::new("skill.v2").is_ok());
    assert!(SkillName::new("Skill123").is_ok());
    assert!(SkillName::new("a").is_ok());
}

#[test]
fn test_skill_name_lowercase() {
    let name = SkillName::new("PDF-Processing").unwrap();
    assert_eq!(name.as_str(), "pdf-processing");
}

#[test]
fn test_skill_name_empty() {
    let err = SkillName::new("").unwrap_err();
    assert!(matches!(err, ValidationError::EmptyName));
}

#[test]
fn test_skill_name_too_long() {
    let long_name = "a".repeat(65);
    let err = SkillName::new(&long_name).unwrap_err();
    assert!(matches!(err, ValidationError::NameTooLong { len: 65 }));
}

#[test]
fn test_skill_name_invalid_char() {
    let err = SkillName::new("skill@name").unwrap_err();
    assert!(matches!(err, ValidationError::InvalidNameChar { ch: '@', pos: 5 }));

    let err = SkillName::new("skill name").unwrap_err();
    assert!(matches!(err, ValidationError::InvalidNameChar { ch: ' ', pos: 5 }));
}

#[test]
fn test_skill_name_max_length_accepted() {
    let name = "b".repeat(64);
    assert!(SkillName::new(&name).is_ok());
}

#[test]
fn test_skill_name_multibyte_length_in_bytes() {
    // 33 two-byte characters are 66 bytes: too long before any character check.
    let name = "é".repeat(33);
    assert!(matches!(SkillName::new(&name).unwrap_err(), ValidationError::NameTooLong { len: 66 }));
}

#[test]
fn test_estimate_tokens_english() {
    let text = "This is a simple English text for testing token estimation.";
    let tokens = estimate_tokens(text);
    assert!(tokens > 10 && tokens < 25);
}

#[test]
fn test_estimate_tokens_cjk() {
    let text = "这是一段中文测试文本";
    let tokens = estimate_tokens(text);
    assert_eq!(tokens, 5);
}

#[test]
fn test_estimate_tokens_mixed() {
    let text = "Hello 世界 World 你好";
    let tokens = estimate_tokens(text);
    assert!(tokens > 3 && tokens < 10);
}

#[test]
fn test_estimate_tokens_exact_values() {
    // 7 other characters: ceil(7 / 3.5) = 2; 3 CJK characters: ceil(1.5) = 2.
    assert_eq!(estimate_tokens("abcdefg"), 2);
    assert_eq!(estimate_tokens("中文字"), 2);
    assert_eq!(estimate_tokens(""), 0);
}

#[test]
fn test_skill_name_display() {
    let name = SkillName::new("my-skill").unwrap();
    assert_eq!(name.to_string(), "my-skill");
}

#[test]
fn test_is_cjk() {
    assert!(is_cjk('中'));
    assert!(is_cjk('日'));
    assert!(is_cjk('한'));
    assert!(!is_cjk('A'));
    assert!(!is_cjk('1'));
    assert!(!is_cjk(' '));
}

#[test]
fn test_skill_triggers() {
    let mut skill = Skill {
        name: SkillName::new("test").unwrap(),
        description: "Test skill".to_string(),
        license: None,
        compatibility: None,
        metadata: StrMap::new(),
        instructions: String::new(),
        source_path: String::new(),
    };

    // No triggers
    assert!(skill.triggers().is_empty());

    // With triggers
    skill.metadata.insert("triggers".to_string(), "pdf, .pdf, extract text".to_string());
    let triggers = skill.triggers();
    assert_eq!(triggers, vec!["pdf", ".pdf", "extract text"]);
}

#[test]
fn names_are_case_insensitive_and_round_trip() {
    let a = SkillName::new("My-Skill_2").unwrap();
    let b = SkillName::new("my-skill_2").unwrap();
    assert_eq!(a.as_str(), b.as_str());
    assert_eq!(a.as_str(), "my-skill_2");
    let again = SkillName::new(a.as_str()).unwrap();
    assert_eq!(again.as_str(), a.as_str());
}
