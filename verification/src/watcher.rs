//! Changes to SKILL.md files reported by the file-system watcher.

use vstd::prelude::*;

use crate::text::{owned, str_eq};

verus! {

/// What a file-system event says happened, as far as skill files go.
#[derive(Debug, Clone, Copy, PartialEq, Eq, Structural)]
pub enum ChangeKind {
    /// A file was created.
    FileCreated,
    /// A file's data changed (or an unspecified modification).
    DataModified,
    /// A file was removed.
    FileRemoved,
    /// Anything else (access, metadata, folders, renames, ...).
    Other,
}

/// Watch events for skill files.
#[derive(Debug, Clone)]
pub enum WatchEvent {
    /// A SKILL.md file was created.
    Created(String),
    /// A SKILL.md file was modified.
    Modified(String),
    /// A SKILL.md file was deleted.
    Deleted(String),
}

/// `r` is the watch event for a change of kind `kind` to the skill files
/// `skill_paths`: none when there is no such file or the change is of
/// another kind; otherwise the event for the first of them.
pub open spec fn event_for(kind: ChangeKind, skill_paths: Seq<Seq<char>>, r: Option<WatchEvent>) -> bool {
    if skill_paths.len() == 0 {
        r is None
    } else {
        match kind {
            ChangeKind::FileCreated => r matches Some(WatchEvent::Created(p)) && p@
                == skill_paths[0],
            ChangeKind::DataModified => r matches Some(WatchEvent::Modified(p)) && p@
                == skill_paths[0],
            ChangeKind::FileRemoved => r matches Some(WatchEvent::Deleted(p)) && p@
                == skill_paths[0],
            ChangeKind::Other => r is None,
        }
    }
}

/// What kind of file creation an event reports.
#[derive(Debug, Clone, Copy, PartialEq, Eq, Structural)]
pub enum CreateKindMirror {
    Any,
    File,
    Folder,
    Other,
}

/// What kind of modification an event reports (without its detail).
#[derive(Debug, Clone, Copy, PartialEq, Eq, Structural)]
pub enum ModifyKindMirror {
    Any,
    Data,
    Metadata,
    Name,
    Other,
}

/// What kind of removal an event reports.
#[derive(Debug, Clone, Copy, PartialEq, Eq, Structural)]
pub enum RemoveKindMirror {
    Any,
    File,
    Folder,
    Other,
}

/// The kind of a file-system event (the detail of an access is left
/// out).
#[derive(Debug, Clone, Copy, PartialEq, Eq, Structural)]
pub enum EventKindMirror {
    Any,
    Access,
    Create(CreateKindMirror),
    Modify(ModifyKindMirror),
    Remove(RemoveKindMirror),
    Other,
}

/// What an event kind means for skill files: a file creation; a data
/// change or an unspecified modification; a file removal; or anything
/// else (folders, metadata, renames, accesses, unspecified creations and
/// removals).
pub open spec fn classify_spec(kind: EventKindMirror) -> ChangeKind {
    match kind {
        EventKindMirror::Create(CreateKindMirror::File) => ChangeKind::FileCreated,
        EventKindMirror::Modify(ModifyKindMirror::Data) => ChangeKind::DataModified,
        EventKindMirror::Modify(ModifyKindMirror::Any) => ChangeKind::DataModified,
        EventKindMirror::Remove(RemoveKindMirror::File) => ChangeKind::FileRemoved,
        _ => ChangeKind::Other,
    }
}

/// Classifies an event kind (see `classify_spec`).
pub fn classify(kind: EventKindMirror) -> (c: ChangeKind)
    ensures
        c == classify_spec(kind),
{
    match kind {
        EventKindMirror::Create(CreateKindMirror::File) => ChangeKind::FileCreated,
        EventKindMirror::Modify(ModifyKindMirror::Data) => ChangeKind::DataModified,
        EventKindMirror::Modify(ModifyKindMirror::Any) => ChangeKind::DataModified,
        EventKindMirror::Remove(RemoveKindMirror::File) => ChangeKind::FileRemoved,
        _ => ChangeKind::Other,
    }
}

/// The text after the last `/` of `s` (all of `s` when it has none).
pub open spec fn after_last_slash(s: Seq<char>) -> Seq<char>
    decreases s.len(),
{
    if s.len() == 0 {
        s
    } else if s.last() == '/' {
        Seq::empty()
    } else {
        after_last_slash(s.drop_last()).push(s.last())
    }
}

/// A path read the same way on every platform: no `\`, no `:` and no
/// leading `//` (so no Windows prefix, and `/` is its only separator),
/// ending in a plain name (not empty, not `.`, not `..`).
pub open spec fn plain_path(s: Seq<char>) -> bool {
    &&& !s.contains('\\')
    &&& !s.contains(':')
    &&& !(s.len() >= 2 && s[0] == '/' && s[1] == '/')
    &&& after_last_slash(s).len() > 0
    &&& after_last_slash(s) != seq!['.']
    &&& after_last_slash(s) != seq!['.', '.']
}

/// `n` occurs in `s` as a contiguous part.
pub open spec fn is_infix(n: Seq<char>, s: Seq<char>) -> bool {
    exists|i: int| 0 <= i && i + n.len() <= s.len() && #[trigger] s.subrange(i, i + n.len()) == n
}

/// `std::path::Path::file_name` of `path`, converted with
/// `to_string_lossy`: the final component of the path, if there is one.
/// Stated, from the documentation of `Path` (the final component; `/`
/// separates components on every platform; `.` and repeated separators
/// are normalised away): the result is a non-empty part of the path; and
/// for a plain path (see `plain_path`), which has no prefix on any
/// platform, it is the text after the last `/`.  How other paths are
/// split depends on the platform's path syntax and is not stated.
#[verifier::external_body]
fn file_name(path: &str) -> (r: Option<String>)
    ensures
        r is Some || !plain_path(path@),
        r matches Some(n) ==> n@.len() > 0 && is_infix(n@, path@),
        r matches Some(n) ==> (plain_path(path@) ==> n@ == after_last_slash(path@)),
{
    std::path::Path::new(path).file_name().map(|n| n.to_string_lossy().into_owned())
}

/// Whether the file name of `path` is `SKILL.md`.
pub fn is_skill_file(path: &str) -> (b: bool)
    ensures
        plain_path(path@) ==> (b <==> after_last_slash(path@) == "SKILL.md"@),
        b ==> is_infix("SKILL.md"@, path@),
{
    match file_name(path) {
        Some(n) => str_eq(n.as_str(), "SKILL.md"),
        None => false,
    }
}

/// `keep` may be what `is_skill_file` says of `path`: for a plain path,
/// whether its final name is `SKILL.md`; and kept only if the path
/// contains `SKILL.md`.
pub open spec fn skill_file_choice(path: Seq<char>, keep: bool) -> bool {
    &&& plain_path(path) ==> (keep <==> after_last_slash(path) == "SKILL.md"@)
    &&& keep ==> is_infix("SKILL.md"@, path)
}

/// `sp` are the paths among `paths` that `is_skill_file` keeps, in order.
pub open spec fn skill_paths_of(paths: Seq<Seq<char>>, sp: Seq<Seq<char>>) -> bool {
    exists|keep: Seq<bool>|
        {
            &&& keep.len() == paths.len()
            &&& forall|i: int| 0 <= i < paths.len() ==> skill_file_choice(paths[i], #[trigger] keep[i])
            &&& sp == crate::text::select_by(paths, keep)
        }
}

/// The paths among `paths` whose file name is `SKILL.md`, in order.
pub fn skill_paths(paths: &Vec<String>) -> (r: Vec<String>)
    ensures
        skill_paths_of(crate::text::views(paths@), crate::text::views(r@)),
{
    let ghost ps = crate::text::views(paths@);
    let mut out: Vec<String> = Vec::new();
    let ghost mut keep: Seq<bool> = Seq::empty();
    let mut i: usize = 0;
    while i < paths.len()
        invariant
            i <= paths@.len(),
            ps == crate::text::views(paths@),
            keep.len() == i,
            forall|a: int| 0 <= a < i ==> skill_file_choice(ps[a], #[trigger] keep[a]),
            crate::text::views(out@) == crate::text::select_by(ps.take(i as int), keep),
        decreases paths.len() - i,
    {
        let b = is_skill_file(paths[i].as_str());
        let ghost o0 = crate::text::views(out@);
        assert(ps.take(i + 1).drop_last() =~= ps.take(i as int));
        assert(ps.take(i + 1).last() == paths@[i as int]@);
        assert(keep.push(b).drop_last() =~= keep);
        if b {
            out.push(owned(paths[i].as_str()));
            assert(crate::text::views(out@) =~= o0.push(paths@[i as int]@));
        }
        proof {
            keep = keep.push(b);
        }
        i += 1;
    }
    assert(ps.take(i as int) =~= ps);
    out
}

impl WatchEvent {
    /// The watch event for a change of kind `kind` to the given skill files.
    pub fn from_parts(kind: ChangeKind, skill_paths: Vec<String>) -> (r: Option<WatchEvent>)
        ensures
            event_for(kind, crate::text::views(skill_paths@), r),
    {
        if skill_paths.len() == 0 {
            return None;
        }
        let path = owned(skill_paths[0].as_str());
        match kind {
            ChangeKind::FileCreated => Some(WatchEvent::Created(path)),
            ChangeKind::DataModified => Some(WatchEvent::Modified(path)),
            ChangeKind::FileRemoved => Some(WatchEvent::Deleted(path)),
            ChangeKind::Other => None,
        }
    }

    /// The watch event for a file-system event of kind `kind` on `paths`:
    /// the event for the first of its paths whose file name is `SKILL.md`,
    /// if its kind is a file creation, a data change or a file removal.
    pub fn from_notify(kind: EventKindMirror, paths: &Vec<String>) -> (r: Option<WatchEvent>)
        ensures
            exists|sp: Seq<Seq<char>>|
                skill_paths_of(crate::text::views(paths@), sp) && event_for(classify_spec(kind), sp, r),
    {
        let sp = skill_paths(paths);
        let ghost spv = crate::text::views(sp@);
        let r = WatchEvent::from_parts(classify(kind), sp);
        assert(skill_paths_of(crate::text::views(paths@), spv) && event_for(classify_spec(kind), spv, r));
        r
    }

    /// The path of the file the event is about.
    pub open spec fn path_spec(&self) -> Seq<char> {
        match self {
            WatchEvent::Created(p) => p@,
            WatchEvent::Modified(p) => p@,
            WatchEvent::Deleted(p) => p@,
        }
    }

    /// Get the path associated with this event.
    pub fn path(&self) -> (r: &String)
        ensures
            r@ == self.path_spec(),
    {
        match self {
            WatchEvent::Created(p) => p,
            WatchEvent::Modified(p) => p,
            WatchEvent::Deleted(p) => p,
        }
    }

    /// Check if this is a create event.
    pub fn is_created(&self) -> (b: bool)
        ensures
            b == self is Created,
    {
        matches!(self, WatchEvent::Created(_))
    }

    /// Check if this is a modify event.
    pub fn is_modified(&self) -> (b: bool)
        ensures
            b == self is Modified,
    {
        matches!(self, WatchEvent::Modified(_))
    }

    /// Check if this is a delete event.
    pub fn is_deleted(&self) -> (b: bool)
        ensures
            b == self is Deleted,
    {
        matches!(self, WatchEvent::Deleted(_))
    }
}

} // verus!
