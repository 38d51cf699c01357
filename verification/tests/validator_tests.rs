use skm::schema::SkillName;
use skm::validator::{JsonSchemaValidator, LengthValidator, OutputValidator, RegexValidator, ValidationResult, Validator};

fn schema_type(schema: &serde_json::Value) -> Option<String> {
    schema.get("type").and_then(|t| t.as_str()).map(|t| t.to_string())
}

fn object_schema() -> serde_json::Value {
    let mut m = serde_json::Map::new();
    m.insert("type".to_string(), serde_json::Value::String("object".to_string()));
    serde_json::Value::Object(m)
}

#[test]
fn test_json_schema_valid() {
    let validator = JsonSchemaValidator::new(schema_type(&object_schema()));
    let result = validator.validate(r#"{"key": "value"}"#);
    assert!(result.is_ok());
}

#[test]
fn test_json_schema_invalid_json() {
    let validator = JsonSchemaValidator::new(schema_type(&object_schema()));
    let result = validator.validate("not json");
    assert!(result.is_invalid());
    assert!(result.errors().unwrap()[0].starts_with("Invalid JSON: "));
}

#[test]
fn test_json_schema_wrong_type() {
    let validator = JsonSchemaValidator::new(schema_type(&object_schema()));
    let result = validator.validate(r#"["array", "not", "object"]"#);
    assert!(result.is_invalid());
    assert_eq!(result.errors().unwrap(), &["Expected type 'object', got 'array'".to_string()]);
}

#[test]
fn test_regex_must_match() {
    let validator = RegexValidator::must_match(r"^\d+$").unwrap();
    assert!(validator.validate("12345").is_ok());
    assert!(validator.validate("abc").is_invalid());
    assert_eq!(
        validator.validate("abc").errors().unwrap(),
        &["Output must match pattern: ^\\d+$".to_string()]
    );
}

#[test]
fn test_regex_must_not_match() {
    let validator = RegexValidator::must_not_match(r"secret").unwrap();
    assert!(validator.validate("normal text").is_ok());
    assert!(validator.validate("contains secret").is_invalid());
}

#[test]
fn regex_bad_pattern_is_refused() {
    assert!(RegexValidator::must_match("(unclosed").is_err());
}

#[test]
fn test_length_min() {
    let validator = LengthValidator::min(5);
    assert!(validator.validate("hello").is_ok());
    assert!(validator.validate("hi").is_invalid());
}

#[test]
fn test_length_max() {
    let validator = LengthValidator::max(10);
    assert!(validator.validate("short").is_ok());
    assert!(validator.validate("this is too long").is_invalid());
}

#[test]
fn test_length_range() {
    let validator = LengthValidator::range(3, 10);
    assert!(validator.validate("hello").is_ok());
    assert!(validator.validate("hi").is_invalid());
    assert!(validator.validate("this is too long").is_invalid());
}

#[test]
fn length_messages_are_exact() {
    let validator = LengthValidator::range(3, 4);
    let r = validator.validate("hi");
    assert_eq!(r.errors().unwrap(), &["Output too short: 2 < 3 chars".to_string()]);
    let r = validator.validate("hello");
    assert_eq!(r.errors().unwrap(), &["Output too long: 5 > 4 chars".to_string()]);
    // lengths count bytes: "éé" is 4 bytes
    assert!(LengthValidator::max(3).validate("éé").is_invalid());
    assert_eq!(validator.name(), "length");
    assert_eq!(LengthValidator::min(1).with_name("len").name(), "len");
}

#[test]
fn test_output_validator() {
    let mut validators = OutputValidator::new();
    let skill = SkillName::new("api-skill").unwrap();
    validators.add_for_skill(skill.clone(), Box::new(JsonSchemaValidator::new(schema_type(&object_schema()))));

    let result = validators.validate(&skill, r#"{"ok": true}"#);
    assert!(result.is_ok());

    let result = validators.validate(&skill, "not json");
    assert!(result.is_invalid());

    let other = SkillName::new("other-skill").unwrap();
    let result = validators.validate(&other, "anything");
    assert!(result.is_ok());
}

#[test]
fn test_default_validator() {
    let mut validators = OutputValidator::new();
    validators.add_default(Box::new(LengthValidator::max(100)));

    let skill = SkillName::new("any-skill").unwrap();

    assert!(validators.validate(&skill, "short").is_ok());
    assert!(validators.validate(&skill, &"x".repeat(200)).is_invalid());
}

#[test]
fn output_validator_collects_errors_in_order() {
    let mut validators = OutputValidator::new();
    let skill = SkillName::new("s").unwrap();
    validators.add_default(Box::new(LengthValidator::min(10)));
    validators.add_for_skill(skill.clone(), Box::new(RegexValidator::must_match("^x").unwrap()));
    let r = validators.validate(&skill, "abc");
    assert_eq!(
        r.errors().unwrap(),
        &["Output too short: 3 < 10 chars".to_string(), "Output must match pattern: ^x".to_string()]
    );
    assert!(matches!(ValidationResult::Valid, ValidationResult::Valid));
}

#[test]
fn json_schema_without_type_accepts_any_json() {
    let validator = JsonSchemaValidator::new(schema_type(&serde_json::Value::Object(serde_json::Map::new())));
    assert!(validator.validate("[1, 2]").is_ok());
    assert!(validator.validate("3").is_ok());
    assert!(validator.validate("{").is_invalid());
}
