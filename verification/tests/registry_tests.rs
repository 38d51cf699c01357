use skm::error::{CoreError, ParseError};
use skm::registry::{RefreshReport, SkillRegistry, WatchLoad, WatchStep};
use skm::schema::{Skill, SkillMetadata, SkillName, SkillStats};
use skm::strmap::StrMap;
use skm::watcher::WatchEvent;

fn meta(name: &str, path: &str, hash: u64) -> SkillMetadata {
    SkillMetadata {
        name: SkillName::new(name).unwrap(),
        description: "A test skill for testing".to_string(),
        tags: Vec::new(),
        triggers: vec!["test".to_string(), "testing".to_string()],
        source_path: path.to_string(),
        content_hash: hash,
        estimated_tokens: 10,
    }
}

fn skill(name: &str, description: &str) -> Skill {
    Skill {
        name: SkillName::new(name).unwrap(),
        description: description.to_string(),
        license: None,
        compatibility: None,
        metadata: StrMap::new(),
        instructions: "Do something custom".to_string(),
        source_path: String::new(),
    }
}

fn names(r: &SkillRegistry) -> Vec<String> {
    let mut v: Vec<String> = r.names().iter().map(|n| n.as_str().to_string()).collect();
    v.sort();
    v
}

#[test]
fn test_registry_new_empty() {
    let registry = SkillRegistry::empty(vec!["/skills".to_string()]);
    assert!(registry.is_empty());
    assert_eq!(registry.len(), 0);
    assert_eq!(registry.directories(), &vec!["/skills".to_string()]);
}

#[test]
fn test_registry_catalog() {
    let mut registry = SkillRegistry::empty(Vec::new());
    registry.load(meta("test-skill", "/s/test-skill/SKILL.md", 1));
    let catalog = registry.catalog();
    assert_eq!(catalog.len(), 1);
    assert_eq!(catalog[0].name.as_str(), "test-skill");
    assert_eq!(catalog[0].description, "A test skill for testing");
    assert_eq!(catalog[0].triggers, vec!["test", "testing"]);
}

#[test]
fn test_registry_register() {
    let mut registry = SkillRegistry::empty(Vec::new());
    registry.register(skill("custom-skill", "A custom registered skill")).unwrap();
    assert_eq!(registry.len(), 1);
    let name = SkillName::new("custom-skill").unwrap();
    let loaded = registry.loaded(&name).unwrap().unwrap();
    assert_eq!(loaded.description, "A custom registered skill");
    let md = registry.get_metadata(&name).unwrap();
    let text = "---\nname: custom-skill\ndescription: A custom registered skill\n---\n\nDo something custom";
    assert_eq!(md.content_hash, skm::parser::content_hash(text));
}

#[test]
fn test_registry_register_duplicate() {
    let mut registry = SkillRegistry::empty(Vec::new());
    registry.register(skill("dup-skill", "First")).unwrap();
    let result = registry.register(skill("dup-skill", "Second"));
    assert!(matches!(result.unwrap_err(), CoreError::Duplicate(_)));
    assert_eq!(registry.len(), 1);
}

#[test]
fn test_registry_get_not_found() {
    let registry = SkillRegistry::empty(Vec::new());
    let name = SkillName::new("nonexistent").unwrap();
    assert!(matches!(registry.loaded(&name), Err(CoreError::NotFound(_))));
}

#[test]
fn test_registry_deregister() {
    let mut registry = SkillRegistry::empty(Vec::new());
    registry.load(meta("test-skill", "/p", 1));
    let name = SkillName::new("test-skill").unwrap();
    registry.deregister(&name).unwrap();
    assert_eq!(registry.len(), 0);
    assert!(matches!(registry.deregister(&name), Err(CoreError::NotFound(_))));
}

#[test]
fn test_registry_refresh() {
    let mut registry = SkillRegistry::empty(Vec::new());
    registry.load(meta("test-skill", "/a/SKILL.md", 1));
    let scanned = vec![
        ("/a/SKILL.md".to_string(), Ok(meta("test-skill", "/a/SKILL.md", 1))),
        ("/b/SKILL.md".to_string(), Ok(meta("skill-2", "/b/SKILL.md", 2))),
    ];
    let report = registry.refresh_with(scanned);
    assert!(report.added.iter().any(|n| n.as_str() == "skill-2"));
    assert!(report.updated.is_empty());
    assert!(report.removed.is_empty());
    assert_eq!(registry.len(), 2);
    assert!(report.has_changes());
}

#[test]
fn refresh_updates_changed_and_removes_missing() {
    let mut registry = SkillRegistry::empty(Vec::new());
    registry.load(meta("one", "/1", 1));
    registry.load(meta("two", "/2", 2));
    let name = SkillName::new("one").unwrap();
    registry.update_stats(&name, |mut s: SkillStats| {
        s.selection_count = 5;
        s
    });
    let scanned = vec![
        ("/1".to_string(), Ok(meta("one", "/1", 10))),
        ("/3".to_string(), Err(ParseError::MissingFrontmatter { path: "/3".to_string() })),
    ];
    let report = registry.refresh_with(scanned);
    assert_eq!(report.updated.len(), 1);
    assert_eq!(report.removed.len(), 1);
    assert_eq!(report.removed[0].as_str(), "two");
    assert_eq!(report.errors, vec![("/3".to_string(), "Missing YAML frontmatter in /3".to_string())]);
    assert_eq!(names(&registry), vec!["one"]);
    // statistics survive an update
    assert_eq!(registry.get_stats(&name).unwrap().selection_count, 5);
    assert_eq!(registry.get_metadata(&name).unwrap().content_hash, 10);
}

#[test]
fn refresh_without_change_reports_nothing() {
    let mut registry = SkillRegistry::empty(Vec::new());
    registry.load(meta("one", "/1", 1));
    let report = registry.refresh_with(vec![("/1".to_string(), Ok(meta("one", "/1", 1)))]);
    assert!(!report.has_changes());
    assert!(!RefreshReport::new().has_changes());
}

#[test]
fn test_registry_stats() {
    let mut registry = SkillRegistry::empty(Vec::new());
    registry.load(meta("test-skill", "/p", 1));
    let name = SkillName::new("test-skill").unwrap();
    let stats = registry.get_stats(&name).unwrap();
    assert_eq!(stats.selection_count, 0);
    registry.update_stats(&name, |mut s: SkillStats| {
        s.selection_count = 5;
        s.activation_count = 2;
        s
    });
    let stats = registry.get_stats(&name).unwrap();
    assert_eq!(stats.selection_count, 5);
    assert_eq!(stats.activation_count, 2);
}

#[test]
fn test_registry_multiple_directories() {
    let mut registry = SkillRegistry::empty(vec!["/d1".to_string(), "/d2".to_string()]);
    registry.load(meta("test-skill", "/d1/a/SKILL.md", 1));
    registry.load(meta("skill-2", "/d2/b/SKILL.md", 2));
    assert_eq!(registry.len(), 2);
    assert_eq!(names(&registry), vec!["skill-2", "test-skill"]);
}

#[test]
fn lazy_load_then_loaded() {
    let mut registry = SkillRegistry::empty(Vec::new());
    registry.load(meta("test-skill", "/p", 1));
    let name = SkillName::new("test-skill").unwrap();
    assert!(registry.loaded(&name).unwrap().is_none());
    registry.set_loaded(&name, skill("test-skill", "Loaded")).unwrap();
    assert_eq!(registry.loaded(&name).unwrap().unwrap().description, "Loaded");
}

#[test]
fn watch_events_update_and_remove() {
    let mut registry = SkillRegistry::empty(Vec::new());
    registry.load(meta("old", "/x/SKILL.md", 1));
    assert!(matches!(
        SkillRegistry::watch_step(&WatchEvent::Created("/y/SKILL.md".to_string())),
        WatchStep::Load(_)
    ));
    assert!(matches!(
        SkillRegistry::watch_step(&WatchEvent::Deleted("/x/SKILL.md".to_string())),
        WatchStep::Remove(_)
    ));
    assert!(matches!(
        SkillRegistry::watch_step(&WatchEvent::Created("/y/README.md".to_string())),
        WatchStep::Skip
    ));
    let report = registry
        .process_watch_events(vec![
            WatchLoad::Loaded("/y/SKILL.md".to_string(), Ok(meta("new", "/y/SKILL.md", 3))),
            WatchLoad::Deleted("/x/SKILL.md".to_string()),
        ])
        .unwrap();
    assert_eq!(report.added.len(), 1);
    assert_eq!(report.added[0].as_str(), "new");
    assert!(report.updated.is_empty());
    assert_eq!(report.removed.len(), 1);
    assert_eq!(names(&registry), vec!["new"]);
    assert!(registry.process_watch_events(Vec::new()).is_none());
    let report = registry
        .process_watch_events(vec![WatchLoad::Loaded("/y/SKILL.md".to_string(), Ok(meta("new", "/y/SKILL.md", 4)))])
        .unwrap();
    assert!(report.added.is_empty());
    assert_eq!(report.updated.len(), 1);
    assert_eq!(report.updated[0].as_str(), "new");
}
