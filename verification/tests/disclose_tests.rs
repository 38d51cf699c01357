use skm::disclose::{ContextManager, DisclosureLevel, LoadedSkill, TokenBudget};
use skm::error::DiscloseError;
use skm::registry::SkillRegistry;
use skm::schema::{Skill, SkillName};
use skm::strmap::StrMap;

fn skill(name: &str, instructions: &str) -> Skill {
    Skill {
        name: SkillName::new(name).unwrap(),
        description: "A test skill".to_string(),
        license: None,
        compatibility: None,
        metadata: StrMap::new(),
        instructions: instructions.to_string(),
        source_path: String::new(),
    }
}

#[test]
fn test_disclosure_level_ordering() {
    assert_eq!(DisclosureLevel::Catalog.level(), 0);
    assert_eq!(DisclosureLevel::Activated.level(), 1);
    assert_eq!(DisclosureLevel::Referenced.level(), 2);
}

#[test]
fn test_has_instructions() {
    assert!(!DisclosureLevel::Catalog.has_instructions());
    assert!(DisclosureLevel::Activated.has_instructions());
    assert!(DisclosureLevel::Referenced.has_instructions());
}

#[test]
fn test_loaded_skill() {
    let name = SkillName::new("test").unwrap();
    let mut skill = LoadedSkill::new(name, DisclosureLevel::Activated, 1000);

    assert_eq!(skill.tokens_used, 1000);
    assert!(skill.loaded_files.is_empty());

    skill.add_file("references/data.md".to_string(), 500);

    assert_eq!(skill.tokens_used, 1500);
    assert_eq!(skill.level, DisclosureLevel::Referenced);
    assert_eq!(skill.loaded_files.len(), 1);
}

#[test]
fn token_budget_with_max() {
    let b = TokenBudget::with_max(1000);
    assert_eq!((b.max_tokens, b.catalog_reserve, b.per_skill_max), (1000, 100, 200));
    let d = TokenBudget::default();
    assert_eq!((d.max_tokens, d.catalog_reserve, d.per_skill_max), (50000, 5000, 10000));
}

#[test]
fn test_catalog_prompt() {
    let mut registry = SkillRegistry::empty(Vec::new());
    registry.register(skill("test-skill", "Do it")).unwrap();
    let mut ctx = ContextManager::new(TokenBudget::default());
    let prompt = ctx.catalog_prompt(&registry);
    assert_eq!(prompt, "Available skills:\n- test-skill: A test skill");
    assert!(ctx.tokens_used() > 0);
}

#[test]
fn test_activate_and_deactivate() {
    let s = skill("test-skill", "These are the instructions for the test skill.");
    let name = s.name.clone();
    let mut ctx = ContextManager::new(TokenBudget::default());
    let payload = ctx.activate(&name, &s, vec!["references/data.md".to_string()]).unwrap();
    assert_eq!(payload.skill_name, name);
    assert!(payload.instructions.contains("instructions"));
    assert_eq!(payload.tokens, skm::schema::estimate_tokens(&s.instructions));
    assert!(ctx.is_activated(&name));
    assert_eq!(ctx.tokens_used(), payload.tokens);
    assert_eq!(ctx.activated_count(), 1);

    // activating again gives the same count, no double counting
    let again = ctx.activate(&name, &s, Vec::new()).unwrap();
    assert_eq!(again.tokens, payload.tokens);
    assert_eq!(ctx.tokens_used(), payload.tokens);

    ctx.deactivate(&name);
    assert!(!ctx.is_activated(&name));
    assert_eq!(ctx.tokens_used(), 0);
}

#[test]
fn test_budget_exceeded() {
    let budget = TokenBudget { max_tokens: 10, catalog_reserve: 5, per_skill_max: 5 };
    let mut ctx = ContextManager::new(budget);
    let s = skill("test-skill", &"word ".repeat(40));
    let name = s.name.clone();
    let result = ctx.activate(&name, &s, Vec::new());
    assert!(matches!(result, Err(DiscloseError::BudgetExceeded { needed: 58, available: 10 })));
    assert!(!ctx.is_activated(&name));
}

#[test]
fn test_load_reference() {
    let s = skill("test-skill", "Instructions");
    let name = s.name.clone();
    let mut ctx = ContextManager::new(TokenBudget::default());
    let err = ctx.load_reference_content(&name, "references/data.md".to_string(), "x".to_string());
    assert!(matches!(err, Err(DiscloseError::NotActivated(_))));
    ctx.activate(&name, &s, Vec::new()).unwrap();
    let before = ctx.tokens_used();
    let content = ctx
        .load_reference_content(&name, "references/data.md".to_string(), "# Reference Data\n\nSome data here.".to_string())
        .unwrap();
    assert!(content.contains("Reference Data"));
    assert_eq!(ctx.tokens_used(), before + skm::schema::estimate_tokens(&content));
    let loaded = ctx.loaded_skills();
    assert_eq!(loaded.len(), 1);
    assert_eq!(loaded[0].level, DisclosureLevel::Referenced);
    ctx.deactivate_all();
    assert_eq!(ctx.activated_count(), 0);
}

#[test]
fn test_token_budget_remaining() {
    let mut registry = SkillRegistry::empty(Vec::new());
    registry.register(skill("test-skill", "x")).unwrap();
    let budget = TokenBudget { max_tokens: 100, catalog_reserve: 10, per_skill_max: 50 };
    let mut ctx = ContextManager::new(budget);
    ctx.catalog_prompt(&registry);
    assert!(ctx.tokens_used() > 0);
    assert!(ctx.tokens_remaining() < 100);
    assert_eq!(ctx.tokens_remaining(), 100 - ctx.tokens_used());
}
