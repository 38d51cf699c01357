use skm::error::ParseError;
use skm::parser::{content_hash, RawFrontmatter, SkillParser};

const VALID_SKILL: &str = r#"---
name: pdf-processing
description: Extract text and tables from PDF files
license: MIT
metadata:
  triggers: "pdf, .pdf, extract text from pdf"
  tags: "document, extraction"
---

# PDF Processing Skill

This skill helps you work with PDF files.

## Usage

1. Upload a PDF
2. Ask to extract text or tables
"#;

const MINIMAL_SKILL: &str = r#"---
name: minimal
description: A minimal skill
---

Instructions here.
"#;

/// Decodes frontmatter YAML the way the skill files are read.
fn decode(yaml: &str) -> Result<RawFrontmatter, String> {
    let value: serde_yaml::Value = serde_yaml::from_str(yaml).map_err(|e| e.to_string())?;
    let map = match value.as_mapping() {
        Some(m) => m,
        None => return Err("invalid type: expected a mapping".to_string()),
    };
    let text = |key: &str| -> Result<Option<String>, String> {
        match map.get(key) {
            None => Ok(None),
            Some(serde_yaml::Value::Null) => Ok(None),
            Some(v) => match v.as_str() {
                Some(s) => Ok(Some(s.to_string())),
                None => Err(format!("{}: invalid type: expected a string", key)),
            },
        }
    };
    let name = text("name")?.ok_or_else(|| "missing field `name`".to_string())?;
    let description = text("description")?.ok_or_else(|| "missing field `description`".to_string())?;
    let license = text("license")?;
    let compatibility = text("compatibility")?;
    let mut metadata = Vec::new();
    if let Some(m) = map.get("metadata") {
        if let Some(m) = m.as_mapping() {
            for (k, v) in m {
                let k = k.as_str().ok_or_else(|| "metadata: key must be a string".to_string())?;
                let v = v.as_str().ok_or_else(|| "metadata: value must be a string".to_string())?;
                metadata.push((k.to_string(), v.to_string()));
            }
        }
    }
    Ok(RawFrontmatter { name, description, license, compatibility, metadata })
}

#[test]
fn test_parse_valid_skill() {
    let parser = SkillParser::new();
    let skill = parser.parse_str(VALID_SKILL, decode).unwrap();

    assert_eq!(skill.name.as_str(), "pdf-processing");
    assert_eq!(skill.description, "Extract text and tables from PDF files");
    assert_eq!(skill.license, Some("MIT".to_string()));
    assert!(skill.instructions.contains("PDF Processing Skill"));
    assert!(skill.instructions.contains("Upload a PDF"));
}

#[test]
fn test_parse_minimal_skill() {
    let parser = SkillParser::new();
    let skill = parser.parse_str(MINIMAL_SKILL, decode).unwrap();

    assert_eq!(skill.name.as_str(), "minimal");
    assert_eq!(skill.description, "A minimal skill");
    assert!(skill.license.is_none());
    assert!(skill.instructions.contains("Instructions here"));
}

#[test]
fn test_parse_triggers() {
    let parser = SkillParser::new();
    let skill = parser.parse_str(VALID_SKILL, decode).unwrap();
    let triggers = skill.triggers();

    assert_eq!(triggers, vec!["pdf", ".pdf", "extract text from pdf"]);
}

#[test]
fn test_parse_tags() {
    let parser = SkillParser::new();
    let skill = parser.parse_str(VALID_SKILL, decode).unwrap();
    let tags = skill.tags();

    assert_eq!(tags, vec!["document", "extraction"]);
}

#[test]
fn test_missing_frontmatter() {
    let parser = SkillParser::new();
    let content = "# Just markdown\n\nNo frontmatter here.";

    let err = parser.parse_str(content, decode).unwrap_err();
    assert!(matches!(err, ParseError::MissingFrontmatter { .. }));
}

#[test]
fn test_unclosed_frontmatter() {
    let parser = SkillParser::new();
    let content = "---\nname: test\n\nNo closing delimiter";

    let err = parser.parse_str(content, decode).unwrap_err();
    assert!(matches!(err, ParseError::MissingFrontmatter { .. }));
}

#[test]
fn test_invalid_yaml() {
    let parser = SkillParser::new();
    let content = r#"---
name: [invalid yaml
description: missing bracket
---

Body
"#;

    let err = parser.parse_str(content, decode).unwrap_err();
    assert!(matches!(err, ParseError::InvalidFrontmatter { .. }));
}

#[test]
fn test_invalid_skill_name() {
    let parser = SkillParser::new();
    let content = r#"---
name: "skill with spaces"
description: Test
---

Body
"#;

    let err = parser.parse_str(content, decode).unwrap_err();
    assert!(matches!(err, ParseError::Validation { .. }));
}

#[test]
fn test_case_insensitive_name() {
    let parser = SkillParser::new();
    let content = r#"---
name: PDF-Processing
description: Test
---

Body
"#;

    let skill = parser.parse_str(content, decode).unwrap();
    assert_eq!(skill.name.as_str(), "pdf-processing");
}

#[test]
fn test_windows_line_endings() {
    let parser = SkillParser::new();
    let content = "---\r\nname: test\r\ndescription: Test skill\r\n---\r\n\r\nBody content\r\n";

    let skill = parser.parse_str(content, decode).unwrap();
    assert_eq!(skill.name.as_str(), "test");
    assert!(skill.instructions.contains("Body content"));
}

#[test]
fn test_estimated_tokens() {
    let parser = SkillParser::new();
    let skill = parser.parse_str(VALID_SKILL, decode).unwrap();

    let tokens = skill.estimated_tokens();
    assert!(tokens > 10);
    assert!(tokens < 200);
}

#[test]
fn split_frontmatter_exact_pieces() {
    let parser = SkillParser::new();
    let (fm, body) = parser.split_frontmatter("  \n---\n a: b \n---\n\n\nBody\n").unwrap();
    assert_eq!(fm, "a: b");
    assert_eq!(body, "Body\n");
}

#[test]
fn strict_parser_refuses_empty_description() {
    let content = "---\nname: x\ndescription: \"\"\n---\nBody";
    assert!(SkillParser::new().parse_str(content, decode).is_ok());
    let err = SkillParser::strict().parse_str(content, decode).unwrap_err();
    assert!(matches!(
        err,
        ParseError::Validation { source: skm::error::ValidationError::EmptyDescription, .. }
    ));
}

#[test]
fn description_over_limit_is_refused() {
    let content = format!("---\nname: x\ndescription: {}\n---\nBody", "d".repeat(2001));
    let err = SkillParser::new().parse_str(&content, decode).unwrap_err();
    assert!(matches!(
        err,
        ParseError::Validation { source: skm::error::ValidationError::DescriptionTooLong { len: 2001 }, .. }
    ));
}

#[test]
fn test_parse_file() {
    let parser = SkillParser::new();
    let skill = parser.parse_content_at("/skills/pdf/SKILL.md", VALID_SKILL, decode).unwrap();
    assert_eq!(skill.name.as_str(), "pdf-processing");
    assert_eq!(skill.source_path, "/skills/pdf/SKILL.md");

    let err = parser.parse_content_at("/skills/x/SKILL.md", "no frontmatter", decode).unwrap_err();
    assert_eq!(err.path(), Some(&"/skills/x/SKILL.md".to_string()));
}

#[test]
fn test_parse_metadata() {
    let parser = SkillParser::new();
    let metadata = parser.metadata_from_content("/skills/pdf/SKILL.md", VALID_SKILL, decode).unwrap();
    assert_eq!(metadata.name.as_str(), "pdf-processing");
    assert!(metadata.content_hash != 0);
    assert!(metadata.estimated_tokens > 0);
    assert_eq!(metadata.tags, vec!["document", "extraction"]);
    assert_eq!(metadata.source_path, "/skills/pdf/SKILL.md");
    assert_eq!(metadata.content_hash, content_hash(VALID_SKILL));
}

#[test]
fn content_hash_is_xxh64_of_the_bytes() {
    // The xxHash64 of the empty input with seed 0.
    assert_eq!(content_hash(""), 0xEF46DB3751D8E999);
    assert_ne!(content_hash("a"), content_hash("b"));
}

#[test]
fn metadata_validation_error_keeps_empty_path() {
    let parser = SkillParser::new();
    let content = "---\nname: \"bad name\"\ndescription: d\n---\nBody";
    let err = parser.metadata_from_content("/p/SKILL.md", content, decode).unwrap_err();
    assert_eq!(err.path(), Some(&String::new()));
    let err = parser.parse_content_at("/p/SKILL.md", content, decode).unwrap_err();
    assert_eq!(err.path(), Some(&"/p/SKILL.md".to_string()));
}
