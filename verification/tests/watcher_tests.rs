use skm::watcher::{
    classify, is_skill_file, ChangeKind, CreateKindMirror, EventKindMirror, ModifyKindMirror, RemoveKindMirror, WatchEvent,
};

fn paths(ps: &[&str]) -> Vec<String> {
    ps.iter().map(|p| p.to_string()).collect()
}

#[test]
fn test_watch_event_create() {
    let kind = EventKindMirror::Create(CreateKindMirror::File);
    let watch_event = WatchEvent::from_notify(kind, &paths(&["/skills/test/SKILL.md"])).unwrap();
    assert!(watch_event.is_created());
    assert_eq!(watch_event.path(), "/skills/test/SKILL.md");
}

#[test]
fn test_watch_event_modify() {
    let kind = EventKindMirror::Modify(ModifyKindMirror::Data);
    let watch_event = WatchEvent::from_notify(kind, &paths(&["/skills/test/SKILL.md"])).unwrap();
    assert!(watch_event.is_modified());
}

#[test]
fn test_watch_event_delete() {
    let kind = EventKindMirror::Remove(RemoveKindMirror::File);
    let watch_event = WatchEvent::from_notify(kind, &paths(&["/skills/test/SKILL.md"])).unwrap();
    assert!(watch_event.is_deleted());
}

#[test]
fn test_watch_event_ignore_non_skill() {
    let kind = EventKindMirror::Create(CreateKindMirror::File);
    assert!(WatchEvent::from_notify(kind, &paths(&["/skills/test/README.md"])).is_none());
}

#[test]
fn test_watch_event_ignore_access() {
    assert!(WatchEvent::from_notify(EventKindMirror::Access, &paths(&["/skills/test/SKILL.md"])).is_none());
}

#[test]
fn test_watch_event_multiple_paths() {
    let kind = EventKindMirror::Create(CreateKindMirror::File);
    let watch_event = WatchEvent::from_notify(kind, &paths(&["/skills/a/README.md", "/skills/b/SKILL.md"])).unwrap();
    assert!(watch_event.is_created());
    assert_eq!(watch_event.path(), "/skills/b/SKILL.md");
}

#[test]
fn from_parts_takes_the_first_skill_file() {
    let paths = vec!["/a/SKILL.md".to_string(), "/b/SKILL.md".to_string()];
    let e = WatchEvent::from_parts(ChangeKind::FileRemoved, paths).unwrap();
    assert!(e.is_deleted());
    assert_eq!(e.path(), "/a/SKILL.md");
    assert!(WatchEvent::from_parts(ChangeKind::Other, vec!["/a/SKILL.md".to_string()]).is_none());
    assert!(WatchEvent::from_parts(ChangeKind::FileCreated, Vec::new()).is_none());
}

#[test]
fn skill_file_is_told_by_its_final_name() {
    assert!(is_skill_file("skills/a/SKILL.md"));
    assert!(is_skill_file("SKILL.md"));
    assert!(!is_skill_file("x/README.md"));
    assert!(!is_skill_file("x/SKILL.md.bak"));
    assert!(!is_skill_file("x/.."));
}

#[test]
fn event_kinds_are_classified() {
    assert_eq!(classify(EventKindMirror::Modify(ModifyKindMirror::Data)), ChangeKind::DataModified);
    assert_eq!(classify(EventKindMirror::Access), ChangeKind::Other);
    assert_eq!(classify(EventKindMirror::Create(CreateKindMirror::File)), ChangeKind::FileCreated);
    assert_eq!(classify(EventKindMirror::Create(CreateKindMirror::Folder)), ChangeKind::Other);
    assert_eq!(classify(EventKindMirror::Modify(ModifyKindMirror::Any)), ChangeKind::DataModified);
    assert_eq!(classify(EventKindMirror::Modify(ModifyKindMirror::Name)), ChangeKind::Other);
    assert_eq!(classify(EventKindMirror::Remove(RemoveKindMirror::File)), ChangeKind::FileRemoved);
    assert_eq!(classify(EventKindMirror::Remove(RemoveKindMirror::Any)), ChangeKind::Other);
    assert_eq!(classify(EventKindMirror::Any), ChangeKind::Other);
}

#[test]
fn skill_paths_keep_skill_files_in_order() {
    let kept = skm::watcher::skill_paths(&paths(&["/a/SKILL.md", "/b/README.md", "c/SKILL.md"]));
    assert_eq!(kept, vec!["/a/SKILL.md".to_string(), "c/SKILL.md".to_string()]);
}
