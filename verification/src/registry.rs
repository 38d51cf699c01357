//! The skill registry: metadata of every known skill, loaded lazily to the
//! full skill, with usage statistics.
//!
//! The registry keeps its state in memory.  Reading skill files is done by
//! the caller, which hands the registry what it read: scan results for a
//! refresh, loaded files for watch events, a parsed skill for a lazy load.

use vstd::prelude::*;

use crate::error::{CoreError, ParseError};
use crate::parser::{content_hash, xxh64_digest};
use crate::schema::{metadata_list, token_estimate, Skill, SkillMetadata, SkillName, SkillStats};
use crate::strmap::StrMap;
use crate::text::{owned, push_str, views};
use crate::watcher::{is_skill_file, WatchEvent};

verus! {

/// What the registry holds of one skill.
#[derive(Debug)]
pub struct SkillEntry {
    /// Metadata, always loaded.
    pub metadata: SkillMetadata,
    /// The full skill, once loaded.
    pub full: Option<Skill>,
    /// Selection and usage statistics.
    pub stats: SkillStats,
}

/// Report from a refresh operation.
#[derive(Debug)]
pub struct RefreshReport {
    /// Skills that were added.
    pub added: Vec<SkillName>,
    /// Skills that were updated.
    pub updated: Vec<SkillName>,
    /// Skills that were removed.
    pub removed: Vec<SkillName>,
    /// Errors encountered, with the path of the file.
    pub errors: Vec<(String, String)>,
}

/// The views of a list of (path, message) pairs.
pub open spec fn pair_views(v: Seq<(String, String)>) -> Seq<(Seq<char>, Seq<char>)> {
    Seq::new(v.len(), |i: int| (v[i].0@, v[i].1@))
}

/// The views of a list of skill names.
pub open spec fn name_views(v: Seq<SkillName>) -> Seq<Seq<char>> {
    Seq::new(v.len(), |i: int| v[i]@)
}

impl RefreshReport {
    /// Whether any skill was added, updated or removed.
    pub open spec fn has_changes_spec(&self) -> bool {
        self.added@.len() > 0 || self.updated@.len() > 0 || self.removed@.len() > 0
    }

    /// An empty report.
    pub fn new() -> (r: RefreshReport)
        ensures
            r.added@.len() == 0,
            r.updated@.len() == 0,
            r.removed@.len() == 0,
            r.errors@.len() == 0,
    {
        RefreshReport {
            added: Vec::new(),
            updated: Vec::new(),
            removed: Vec::new(),
            errors: Vec::new(),
        }
    }

    /// Check if any changes occurred.
    pub fn has_changes(&self) -> (b: bool)
        ensures
            b == self.has_changes_spec(),
    {
        self.added.len() > 0 || self.updated.len() > 0 || self.removed.len() > 0
    }
}

impl Default for RefreshReport {
    fn default() -> (r: RefreshReport)
        ensures
            r.added@.len() == 0,
            r.updated@.len() == 0,
            r.removed@.len() == 0,
            r.errors@.len() == 0,
    {
        RefreshReport::new()
    }
}

/// Every entry is filed under its own name.
pub open spec fn keyed(m: Map<Seq<char>, SkillEntry>) -> bool {
    forall|k: Seq<char>| #[trigger] m.dom().contains(k) ==> m[k].metadata.name@ == k
}

/// The entry for freshly read metadata: nothing loaded, the given statistics.
pub open spec fn fresh_entry(md: SkillMetadata, stats: SkillStats) -> SkillEntry {
    SkillEntry { metadata: md, full: None, stats }
}

/// One scanned skill applied to the registry: a new name is added with
/// zero statistics; a known name whose content hash changed is replaced,
/// keeping its statistics; a known name with the same hash is left alone.
pub open spec fn refresh_step(m: Map<Seq<char>, SkillEntry>, md: SkillMetadata) -> Map<
    Seq<char>,
    SkillEntry,
> {
    let k = md.name@;
    if !m.dom().contains(k) {
        m.insert(k, fresh_entry(md, SkillStats::zero()))
    } else if m[k].metadata.content_hash != md.content_hash {
        m.insert(k, fresh_entry(md, m[k].stats))
    } else {
        m
    }
}

/// The registry after applying the scan results in order (parse errors
/// change nothing).
pub open spec fn scan_fold(
    m: Map<Seq<char>, SkillEntry>,
    s: Seq<(String, Result<SkillMetadata, ParseError>)>,
) -> Map<Seq<char>, SkillEntry>
    decreases s.len(),
{
    if s.len() == 0 {
        m
    } else {
        let prev = scan_fold(m, s.drop_last());
        match s.last().1 {
            Ok(md) => refresh_step(prev, md),
            Err(_) => prev,
        }
    }
}

/// Names added by the scan, in order.
pub open spec fn scan_added(
    m: Map<Seq<char>, SkillEntry>,
    s: Seq<(String, Result<SkillMetadata, ParseError>)>,
) -> Seq<Seq<char>>
    decreases s.len(),
{
    if s.len() == 0 {
        Seq::empty()
    } else {
        let prev = scan_fold(m, s.drop_last());
        let a = scan_added(m, s.drop_last());
        match s.last().1 {
            Ok(md) => if !prev.dom().contains(md.name@) {
                a.push(md.name@)
            } else {
                a
            },
            Err(_) => a,
        }
    }
}

/// Names updated by the scan (content hash changed), in order.
pub open spec fn scan_updated(
    m: Map<Seq<char>, SkillEntry>,
    s: Seq<(String, Result<SkillMetadata, ParseError>)>,
) -> Seq<Seq<char>>
    decreases s.len(),
{
    if s.len() == 0 {
        Seq::empty()
    } else {
        let prev = scan_fold(m, s.drop_last());
        let u = scan_updated(m, s.drop_last());
        match s.last().1 {
            Ok(md) => if prev.dom().contains(md.name@) && prev[md.name@].metadata.content_hash
                != md.content_hash {
                u.push(md.name@)
            } else {
                u
            },
            Err(_) => u,
        }
    }
}

/// The failed scans, as (path, message) pairs in order.
pub open spec fn scan_errors(s: Seq<(String, Result<SkillMetadata, ParseError>)>) -> Seq<
    (Seq<char>, Seq<char>),
>
    decreases s.len(),
{
    if s.len() == 0 {
        Seq::empty()
    } else {
        let e = scan_errors(s.drop_last());
        match s.last().1 {
            Ok(_) => e,
            Err(err) => e.push((s.last().0@, err.message())),
        }
    }
}

/// The names that scanned successfully.
pub open spec fn seen_names(s: Seq<(String, Result<SkillMetadata, ParseError>)>) -> Set<Seq<char>>
    decreases s.len(),
{
    if s.len() == 0 {
        Set::empty()
    } else {
        let p = seen_names(s.drop_last());
        match s.last().1 {
            Ok(md) => p.insert(md.name@),
            Err(_) => p,
        }
    }
}

/// What the watcher hands the registry for one event: a skill file that
/// was (re)loaded, with its parsed metadata or parse error, or a skill file
/// that was deleted.
#[derive(Debug)]
pub enum WatchLoad {
    /// A created or modified SKILL.md file and what parsing it gave.
    Loaded(String, Result<SkillMetadata, ParseError>),
    /// A deleted SKILL.md file.
    Deleted(String),
}

/// What to do for a watch event: load the file, drop the skills read from
/// it, or nothing.
#[derive(Debug)]
pub enum WatchStep {
    /// Read and parse the SKILL.md file at this path.
    Load(String),
    /// Remove the skills read from this path.
    Remove(String),
    /// Nothing to do.
    Skip,
}

/// The names whose skill was read from `path`.
pub open spec fn from_source(m: Map<Seq<char>, SkillEntry>, path: Seq<char>) -> Set<Seq<char>> {
    Set::new(|k: Seq<char>| m.dom().contains(k) && m[k].metadata.source_path@ == path)
}

/// The message of the core error a parse error becomes.
pub open spec fn parse_failure_message(e: ParseError) -> Seq<char> {
    "Parse error in "@ + e.path_spec() + ": "@ + e.message()
}

/// The registry after the watch loads, in order: a loaded skill replaces
/// any entry of its name with fresh statistics; a deleted file takes the
/// skills read from it away.
pub open spec fn watch_fold(m: Map<Seq<char>, SkillEntry>, s: Seq<WatchLoad>) -> Map<
    Seq<char>,
    SkillEntry,
>
    decreases s.len(),
{
    if s.len() == 0 {
        m
    } else {
        let prev = watch_fold(m, s.drop_last());
        match s.last() {
            WatchLoad::Loaded(_, Ok(md)) => prev.insert(md.name@, fresh_entry(md, SkillStats::zero())),
            WatchLoad::Loaded(_, Err(_)) => prev,
            WatchLoad::Deleted(p) => prev.remove_keys(from_source(prev, p@)),
        }
    }
}

/// Names reported as added and as updated, each loaded name once, in order
/// of its first load: added when no skill of that name was registered just
/// before that load, updated otherwise.
pub open spec fn watch_changes(m: Map<Seq<char>, SkillEntry>, s: Seq<WatchLoad>) -> (
    Seq<Seq<char>>,
    Seq<Seq<char>>,
)
    decreases s.len(),
{
    if s.len() == 0 {
        (Seq::empty(), Seq::empty())
    } else {
        let (a, u) = watch_changes(m, s.drop_last());
        match s.last() {
            WatchLoad::Loaded(_, Ok(md)) => if a.contains(md.name@) || u.contains(md.name@) {
                (a, u)
            } else if watch_fold(m, s.drop_last()).dom().contains(md.name@) {
                (a, u.push(md.name@))
            } else {
                (a.push(md.name@), u)
            },
            _ => (a, u),
        }
    }
}

/// Names reported as added: loaded while no skill of that name was registered.
pub open spec fn watch_added(m: Map<Seq<char>, SkillEntry>, s: Seq<WatchLoad>) -> Seq<Seq<char>> {
    watch_changes(m, s).0
}

/// Names reported as updated: loaded while a skill of that name was registered.
pub open spec fn watch_updated(m: Map<Seq<char>, SkillEntry>, s: Seq<WatchLoad>) -> Seq<Seq<char>> {
    watch_changes(m, s).1
}

/// Names removed by the deletions.
pub open spec fn watch_removed(m: Map<Seq<char>, SkillEntry>, s: Seq<WatchLoad>) -> Set<Seq<char>>
    decreases s.len(),
{
    if s.len() == 0 {
        Set::empty()
    } else {
        let prev = watch_fold(m, s.drop_last());
        let r = watch_removed(m, s.drop_last());
        match s.last() {
            WatchLoad::Deleted(p) => r.union(from_source(prev, p@)),
            _ => r,
        }
    }
}

/// The failed loads, as (path, message) pairs in order.
pub open spec fn watch_errors(s: Seq<WatchLoad>) -> Seq<(Seq<char>, Seq<char>)>
    decreases s.len(),
{
    if s.len() == 0 {
        Seq::empty()
    } else {
        let e = watch_errors(s.drop_last());
        match s.last() {
            WatchLoad::Loaded(p, Err(err)) => e.push((p@, parse_failure_message(err))),
            _ => e,
        }
    }
}

/// The text a programmatically registered skill is hashed as.
pub open spec fn register_content(name: Seq<char>, description: Seq<char>, instructions: Seq<
    char,
>) -> Seq<char> {
    "---\nname: "@ + name + "\ndescription: "@ + description + "\n---\n\n"@ + instructions
}

/// `md` is the metadata of `skill` with content hash `hash`.
pub open spec fn describes(md: SkillMetadata, skill: Skill, hash: u64) -> bool {
    &&& md.name@ == skill.name@
    &&& md.description@ == skill.description@
    &&& views(md.tags@) == metadata_list(skill.metadata.view(), "tags"@)
    &&& views(md.triggers@) == metadata_list(skill.metadata.view(), "triggers"@)
    &&& md.source_path@ == skill.source_path@
    &&& md.content_hash == hash
    &&& md.estimated_tokens == token_estimate(skill.instructions@)
}

/// `a` is a copy of `b`.
pub open spec fn same_metadata(a: SkillMetadata, b: SkillMetadata) -> bool {
    &&& a.name@ == b.name@
    &&& a.description@ == b.description@
    &&& views(a.tags@) == views(b.tags@)
    &&& views(a.triggers@) == views(b.triggers@)
    &&& a.source_path@ == b.source_path@
    &&& a.content_hash == b.content_hash
    &&& a.estimated_tokens == b.estimated_tokens
}

/// In-memory skill registry.
#[derive(Debug)]
pub struct SkillRegistry {
    /// Registered skills by name.
    skills: StrMap<SkillEntry>,
    /// Directories the skills are read from.
    directories: Vec<String>,
}

/// Whether a list of names holds `name`.
fn contains_name(v: &Vec<SkillName>, name: &SkillName) -> (b: bool)
    ensures
        b == name_views(v@).contains(name@),
{
    let mut i: usize = 0;
    while i < v.len()
        invariant
            i <= v@.len(),
            forall|j: int| 0 <= j < i ==> v@[j]@ != name@,
        decreases v.len() - i,
    {
        if v[i].same(name) {
            assert(name_views(v@)[i as int] == name@);
            return true;
        }
        i += 1;
    }
    proof {
        if name_views(v@).contains(name@) {
            let j = choose|j: int| 0 <= j < name_views(v@).len() && name_views(v@)[j] == name@;
            assert(v@[j]@ == name@);
        }
    }
    false
}

impl SkillRegistry {
    /// The skills, by name.
    pub closed spec fn view(&self) -> Map<Seq<char>, SkillEntry> {
        self.skills.view()
    }

    /// The skill directories.
    pub closed spec fn directories_spec(&self) -> Seq<Seq<char>> {
        views(self.directories@)
    }

    /// Invariant: each skill is filed under its name.
    pub closed spec fn wf(&self) -> bool {
        self.skills.wf() && keyed(self.skills.view())
    }

    /// An empty registry over the given skill directories.
    pub fn empty(directories: Vec<String>) -> (r: SkillRegistry)
        ensures
            r.wf(),
            r.view() == Map::<Seq<char>, SkillEntry>::empty(),
            r.directories_spec() == views(directories@),
    {
        SkillRegistry { skills: StrMap::new(), directories }
    }

    /// The skill directories.
    pub fn directories(&self) -> (r: &Vec<String>)
        ensures
            views(r@) == self.directories_spec(),
    {
        &self.directories
    }

    /// Applies one scanned skill (see `refresh_step`); returns whether it
    /// was added (`Some(true)`), updated (`Some(false)`) or neither.
    fn apply_scanned(&mut self, md: SkillMetadata) -> (r: Option<bool>)
        requires
            old(self).wf(),
        ensures
            final(self).wf(),
            final(self).view() == refresh_step(old(self).view(), md),
            final(self).directories_spec() == old(self).directories_spec(),
            r == (if !old(self).view().dom().contains(md.name@) {
                Some(true)
            } else if old(self).view()[md.name@].metadata.content_hash != md.content_hash {
                Some(false)
            } else {
                None
            }),
    {
        let ghost m0 = self.skills.view();
        let ghost k = md.name@;
        proof {
            self.skills.lemma_view();
        }
        match self.skills.index_of(md.name.as_str()) {
            Some(i) => {
                let (key, e) = self.skills.take_at(i);
                assert(key@ == k);
                assert(m0.dom().contains(k));
                assert(e == m0[k]);
                if e.metadata.content_hash != md.content_hash {
                    let stats = e.stats;
                    self.skills.put_at(i, key, SkillEntry { metadata: md, full: None, stats });
                    assert(self.skills.view() =~= m0.insert(k, fresh_entry(md, m0[k].stats)));
                    Some(false)
                } else {
                    self.skills.put_at(i, key, e);
                    assert(self.skills.view() =~= m0);
                    None
                }
            },
            None => {
                let key = owned(md.name.as_str());
                self.skills.insert(
                    key,
                    SkillEntry { metadata: md, full: None, stats: SkillStats::default() },
                );
                Some(true)
            },
        }
    }

    /// Names of the skills that `keep` does not hold, in entry order.
    fn names_not_in(&self, keep: &StrMap<()>) -> (r: Vec<SkillName>)
        requires
            self.wf(),
            keep.wf(),
        ensures
            name_views(r@).to_set() == self.view().dom().difference(keep.view().dom()),
            name_views(r@).no_duplicates(),
    {
        proof {
            self.skills.lemma_view();
        }
        let ghost es = self.skills.entries();
        let mut out: Vec<SkillName> = Vec::new();
        let ghost mut ix: Seq<int> = Seq::empty();
        let n = self.skills.len();
        let mut i: usize = 0;
        while i < n
            invariant
                self.wf(),
                keep.wf(),
                es == self.skills.entries(),
                n == es.len(),
                i <= n,
                ix.len() == out@.len(),
                forall|a: int| 0 <= a < ix.len() ==> 0 <= #[trigger] ix[a] < i,
                forall|a: int, b: int| 0 <= a < b < ix.len() ==> ix[a] < ix[b],
                forall|a: int| 0 <= a < ix.len() ==> out@[a]@ == es[#[trigger] ix[a]].0@,
                forall|a: int| 0 <= a < ix.len() ==> !keep.view().dom().contains(es[#[trigger] ix[a]].0@),
                forall|j: int|
                    0 <= j < i && !keep.view().dom().contains(#[trigger] es[j].0@) ==> exists|a: int|
                        0 <= a < ix.len() && ix[a] == j,
            decreases n - i,
        {
            let (key, e) = self.skills.entry_at(i);
            proof {
                self.skills.lemma_view();
                assert(self.skills.view()[es[i as int].0@] == es[i as int].1);
            }
            assert(self.skills.view().dom().contains(es[i as int].0@));
            let ghost ix0 = ix;
            let ghost out0 = out@;
            if !keep.contains_key(key.as_str()) {
                out.push(e.metadata.name.clone());
                proof {
                    ix = ix.push(i as int);
                    assert(ix[ix.len() - 1] == i);
                    assert forall|a: int| 0 <= a < ix.len() implies out@[a]@ == es[#[trigger] ix[a]].0@ by {
                        if a < ix0.len() {
                            assert(out@[a] == out0[a]);
                            assert(ix[a] == ix0[a]);
                        }
                    }
                }
            }
            proof {
                assert forall|j: int|
                    0 <= j < i + 1 && !keep.view().dom().contains(#[trigger] es[j].0@) implies exists|a: int|
                        0 <= a < ix.len() && ix[a] == j by {
                    if j == i {
                        assert(ix[ix.len() - 1] == j);
                    } else {
                        let a = choose|a: int| 0 <= a < ix0.len() && ix0[a] == j;
                        assert(ix[a] == j);
                    }
                }
            }
            i += 1;
        }
        proof {
            self.skills.lemma_view();
            let nv = name_views(out@);
            assert forall|x: Seq<char>| #[trigger] nv.to_set().contains(x)
                == self.view().dom().difference(keep.view().dom()).contains(x) by {
                if nv.to_set().contains(x) {
                    let a = choose|a: int| 0 <= a < nv.len() && nv[a] == x;
                    assert(out@[a]@ == es[ix[a]].0@);
                }
                if self.view().dom().difference(keep.view().dom()).contains(x) {
                    let j = choose|j: int| 0 <= j < es.len() && es[j].0@ == x;
                    assert(!keep.view().dom().contains(es[j].0@));
                    let a = choose|a: int| 0 <= a < ix.len() && ix[a] == j;
                    assert(nv[a] == x);
                }
            }
            assert(nv.to_set() =~= self.view().dom().difference(keep.view().dom()));
            self.skills.lemma_keys_distinct();
            assert forall|a: int, b: int| 0 <= a < nv.len() && 0 <= b < nv.len() && a != b implies nv[a]
                != nv[b] by {
                if ix[a] < ix[b] {
                    assert(es[ix[a]].0@ != es[ix[b]].0@);
                } else {
                    assert(es[ix[b]].0@ != es[ix[a]].0@);
                }
                assert(out@[a]@ == es[ix[a]].0@);
                assert(out@[b]@ == es[ix[b]].0@);
                assert(ix[a] != ix[b]);
            }
        }
        out
    }

    /// Removes the named skills, appending each name to `out`.
    fn remove_names(&mut self, names: &Vec<SkillName>, out: &mut Vec<SkillName>)
        requires
            old(self).wf(),
        ensures
            final(self).wf(),
            final(self).view() == old(self).view().remove_keys(name_views(names@).to_set()),
            final(self).directories_spec() == old(self).directories_spec(),
            name_views(final(out)@) == name_views(old(out)@) + name_views(names@),
    {
        let ghost m0 = self.skills.view();
        let ghost o0 = name_views(out@);
        let mut j: usize = 0;
        while j < names.len()
            invariant
                self.wf(),
                j <= names@.len(),
                self.skills.view() == m0.remove_keys(name_views(names@).take(j as int).to_set()),
                self.directories_spec() == old(self).directories_spec(),
                name_views(out@) == o0 + name_views(names@).take(j as int),
            decreases names.len() - j,
        {
            let nm = names[j].clone();
            let ghost before = self.skills.view();
            let ghost out0 = out@;
            assert(out0.len() == o0.len() + j) by {
                assert(name_views(out0).len() == out0.len());
            }
            self.skills.remove(nm.as_str());
            let ghost nv = name_views(names@);
            assert(nv.take(j + 1) =~= nv.take(j as int).push(nm@));
            proof {
                nv.take(j as int).lemma_push_to_set_commute(nm@);
            }
            assert(self.skills.view() =~= m0.remove_keys(nv.take(j + 1).to_set()));
            out.push(nm);
            assert forall|x: int| 0 <= x < out@.len() implies #[trigger] name_views(out@)[x] == (o0
                + nv.take(j + 1))[x] by {
                if x < out0.len() {
                    assert(out@[x] == out0[x]);
                    assert(name_views(out0)[x] == out0[x]@);
                } else {
                    assert(x == o0.len() + j);
                    assert((o0 + nv.take(j + 1))[x] == nv.take(j + 1)[j as int]);
                }
            }
            assert(name_views(out@) =~= o0 + nv.take(j + 1));
            j += 1;
        }
        assert(name_views(names@).take(j as int) =~= name_views(names@));
    }

    /// Refreshes the registry from a scan of its directories: `scanned`
    /// holds, for each SKILL.md file found, its path and its parsed
    /// metadata or parse error.  The scans are applied in order (see
    /// `refresh_step`), then every skill that did not scan is removed.
    pub fn refresh_with(
        &mut self,
        scanned: Vec<(String, Result<SkillMetadata, ParseError>)>,
    ) -> (r: RefreshReport)
        requires
            old(self).wf(),
        ensures
            final(self).wf(),
            final(self).view() == scan_fold(old(self).view(), scanned@).restrict(
                seen_names(scanned@),
            ),
            final(self).directories_spec() == old(self).directories_spec(),
            name_views(r.added@) == scan_added(old(self).view(), scanned@),
            name_views(r.updated@) == scan_updated(old(self).view(), scanned@),
            pair_views(r.errors@) == scan_errors(scanned@),
            name_views(r.removed@).to_set() == scan_fold(old(self).view(), scanned@).dom().difference(
                seen_names(scanned@),
            ),
            name_views(r.removed@).no_duplicates(),
    {
        let ghost m0 = self.skills.view();
        let ghost all = scanned@;
        let n = scanned.len();
        let mut rest = scanned;
        let mut seen: StrMap<()> = StrMap::new();
        let mut report = RefreshReport::new();
        let mut k: usize = 0;
        while rest.len() > 0
            invariant
                self.wf(),
                self.directories_spec() == old(self).directories_spec(),
                k + rest@.len() == all.len(),
                all.len() == n,
                rest@ == all.skip(k as int),
                self.view() == scan_fold(m0, all.take(k as int)),
                seen.wf(),
                seen.view().dom() == seen_names(all.take(k as int)),
                name_views(report.added@) == scan_added(m0, all.take(k as int)),
                name_views(report.updated@) == scan_updated(m0, all.take(k as int)),
                pair_views(report.errors@) == scan_errors(all.take(k as int)),
                report.removed@.len() == 0,
            decreases rest.len(),
        {
            let ghost pre = all.take(k as int);
            let ghost cur = all.take(k + 1);
            assert(cur.drop_last() =~= pre);
            let ghost added0 = report.added@;
            let ghost updated0 = report.updated@;
            let ghost errors0 = report.errors@;
            let (path, res) = rest.remove(0);
            assert(cur.last() == (path, res));
            match res {
                Ok(md) => {
                    let name = md.name.clone();
                    seen.insert(owned(name.as_str()), ());
                    assert(seen.view().dom() =~= seen_names(cur));
                    let outcome = self.apply_scanned(md);
                    match outcome {
                        Some(true) => {
                            report.added.push(name);
                            assert(name_views(report.added@) =~= name_views(added0).push(name@));
                        },
                        Some(false) => {
                            report.updated.push(name);
                            assert(name_views(report.updated@) =~= name_views(updated0).push(name@));
                        },
                        None => {},
                    }
                },
                Err(e) => {
                    let msg = e.to_string();
                    report.errors.push((path, msg));
                    assert(pair_views(report.errors@) =~= pair_views(errors0).push((path@, e.message())));
                },
            }
            assert(rest@ =~= all.skip(k + 1));
            k += 1;
        }
        assert(all.take(k as int) =~= all);
        let ghost folded = self.skills.view();
        let drop = self.names_not_in(&seen);
        let mut removed: Vec<SkillName> = Vec::new();
        self.remove_names(&drop, &mut removed);
        assert(name_views(removed@) =~= name_views(drop@));
        assert(self.view() =~= folded.restrict(seen_names(all)));
        report.removed = removed;
        report
    }

    /// Files a skill read from disk under its name, with fresh statistics,
    /// replacing any entry of that name; returns the name.
    pub fn load(&mut self, md: SkillMetadata) -> (r: SkillName)
        requires
            old(self).wf(),
        ensures
            final(self).wf(),
            final(self).view() == old(self).view().insert(md.name@, fresh_entry(md, SkillStats::zero())),
            final(self).directories_spec() == old(self).directories_spec(),
            r@ == md.name@,
    {
        let name = md.name.clone();
        self.skills.insert(
            owned(name.as_str()),
            SkillEntry { metadata: md, full: None, stats: SkillStats::default() },
        );
        name
    }

    /// Names of the skills read from `path`.
    fn names_from_source(&self, path: &str) -> (r: Vec<SkillName>)
        requires
            self.wf(),
        ensures
            name_views(r@).to_set() == from_source(self.view(), path@),
    {
        proof {
            self.skills.lemma_view();
        }
        let ghost es = self.skills.entries();
        let mut out: Vec<SkillName> = Vec::new();
        let ghost mut ix: Seq<int> = Seq::empty();
        let n = self.skills.len();
        let mut i: usize = 0;
        while i < n
            invariant
                self.wf(),
                es == self.skills.entries(),
                n == es.len(),
                i <= n,
                ix.len() == out@.len(),
                forall|a: int| 0 <= a < ix.len() ==> 0 <= #[trigger] ix[a] < i,
                forall|a: int| 0 <= a < ix.len() ==> out@[a]@ == es[#[trigger] ix[a]].0@,
                forall|a: int| 0 <= a < ix.len() ==> es[#[trigger] ix[a]].1.metadata.source_path@ == path@,
                forall|j: int|
                    0 <= j < i && (#[trigger] es[j]).1.metadata.source_path@ == path@ ==> exists|a: int|
                        0 <= a < ix.len() && ix[a] == j,
            decreases n - i,
        {
            let (key, e) = self.skills.entry_at(i);
            proof {
                self.skills.lemma_view();
                assert(self.skills.view()[es[i as int].0@] == es[i as int].1);
            }
            assert(self.skills.view().dom().contains(es[i as int].0@));
            let ghost ix0 = ix;
            let ghost out0 = out@;
            if crate::text::str_eq(e.metadata.source_path.as_str(), path) {
                out.push(e.metadata.name.clone());
                proof {
                    ix = ix.push(i as int);
                    assert forall|a: int| 0 <= a < ix.len() implies out@[a]@ == es[#[trigger] ix[a]].0@ by {
                        if a < ix0.len() {
                            assert(out@[a] == out0[a]);
                            assert(ix[a] == ix0[a]);
                        }
                    }
                }
            }
            proof {
                assert forall|j: int|
                    0 <= j < i + 1 && (#[trigger] es[j]).1.metadata.source_path@ == path@ implies exists|a: int|
                        0 <= a < ix.len() && ix[a] == j by {
                    if j == i {
                        assert(ix[ix.len() - 1] == j);
                    } else {
                        let a = choose|a: int| 0 <= a < ix0.len() && ix0[a] == j;
                        assert(ix[a] == j);
                    }
                }
            }
            i += 1;
        }
        proof {
            self.skills.lemma_view();
            let nv = name_views(out@);
            assert forall|x: Seq<char>| #[trigger] nv.to_set().contains(x) == from_source(self.view(), path@).contains(x) by {
                if nv.to_set().contains(x) {
                    let a = choose|a: int| 0 <= a < nv.len() && nv[a] == x;
                    assert(out@[a]@ == es[ix[a]].0@);
                    assert(self.skills.view()[es[ix[a]].0@] == es[ix[a]].1);
                }
                if from_source(self.view(), path@).contains(x) {
                    let j = choose|j: int| 0 <= j < es.len() && es[j].0@ == x;
                    assert(self.skills.view()[es[j].0@] == es[j].1);
                    let a = choose|a: int| 0 <= a < ix.len() && ix[a] == j;
                    assert(nv[a] == x);
                }
            }
            assert(nv.to_set() =~= from_source(self.view(), path@));
        }
        out
    }

    /// What to do for a watch event: a created or modified SKILL.md file is
    /// loaded, a deleted SKILL.md file takes its skills away; events on
    /// other files are skipped.
    pub fn watch_step(event: &WatchEvent) -> (r: WatchStep)
        ensures
            crate::watcher::plain_path(event.path_spec()) ==> (r is Skip <==> crate::watcher::after_last_slash(
                event.path_spec(),
            ) != "SKILL.md"@),
            !(r is Skip) ==> crate::watcher::is_infix("SKILL.md"@, event.path_spec()),
            r matches WatchStep::Load(p) ==> p@ == event.path_spec() && !(event is Deleted),
            r matches WatchStep::Remove(p) ==> p@ == event.path_spec() && event is Deleted,
    {
        let path = event.path();
        if !is_skill_file(path.as_str()) {
            return WatchStep::Skip;
        }
        match event {
            WatchEvent::Deleted(p) => WatchStep::Remove(p.clone()),
            WatchEvent::Created(p) => WatchStep::Load(p.clone()),
            WatchEvent::Modified(p) => WatchStep::Load(p.clone()),
        }
    }

    /// Applies what the watcher loaded.  Every loaded skill is filed under
    /// its name with fresh statistics and reported once: as added when no
    /// skill of that name was registered just before, as updated
    /// otherwise; a deleted file's skills are removed; parse failures are
    /// reported as errors.  The report is returned when a skill was added,
    /// updated or removed.
    pub fn process_watch_events(&mut self, events: Vec<WatchLoad>) -> (r: Option<RefreshReport>)
        requires
            old(self).wf(),
        ensures
            final(self).wf(),
            final(self).view() == watch_fold(old(self).view(), events@),
            final(self).directories_spec() == old(self).directories_spec(),
            r is Some <==> (watch_added(old(self).view(), events@).len() > 0 || watch_updated(
                old(self).view(),
                events@,
            ).len() > 0 || watch_removed(old(self).view(), events@) != Set::<Seq<char>>::empty()),
            r matches Some(rep) ==> {
                &&& name_views(rep.added@) == watch_added(old(self).view(), events@)
                &&& name_views(rep.updated@) == watch_updated(old(self).view(), events@)
                &&& name_views(rep.removed@).to_set() == watch_removed(old(self).view(), events@)
                &&& pair_views(rep.errors@) == watch_errors(events@)
            },
    {
        let ghost m0 = self.skills.view();
        let ghost all = events@;
        let n = events.len();
        let mut rest = events;
        let mut report = RefreshReport::new();
        let mut k: usize = 0;
        while rest.len() > 0
            invariant
                self.wf(),
                self.directories_spec() == old(self).directories_spec(),
                k + rest@.len() == all.len(),
                all.len() == n,
                rest@ == all.skip(k as int),
                self.view() == watch_fold(m0, all.take(k as int)),
                name_views(report.added@) == watch_added(m0, all.take(k as int)),
                name_views(report.updated@) == watch_updated(m0, all.take(k as int)),
                name_views(report.removed@).to_set() == watch_removed(m0, all.take(k as int)),
                pair_views(report.errors@) == watch_errors(all.take(k as int)),
            decreases rest.len(),
        {
            let ghost pre = all.take(k as int);
            let ghost cur = all.take(k + 1);
            assert(cur.drop_last() =~= pre);
            let ghost updated0 = report.updated@;
            let ghost errors0 = report.errors@;
            let ghost removed0 = report.removed@;
            let ghost added0 = report.added@;
            let item = rest.remove(0);
            assert(cur.last() == item);
            match item {
                WatchLoad::Loaded(path, Ok(md)) => {
                    let known = self.skills.contains_key(md.name.as_str());
                    let name = self.load(md);
                    if !contains_name(&report.added, &name) && !contains_name(&report.updated, &name) {
                        if known {
                            report.updated.push(name);
                            assert(name_views(report.updated@) =~= name_views(updated0).push(name@));
                        } else {
                            report.added.push(name);
                            assert(name_views(report.added@) =~= name_views(added0).push(name@));
                        }
                    }
                },
                WatchLoad::Loaded(path, Err(e)) => {
                    let msg = CoreError::from_parse(e).to_string();
                    report.errors.push((path, msg));
                    assert(pair_views(report.errors@) =~= pair_views(errors0).push(
                        (path@, parse_failure_message(e)),
                    ));
                },
                WatchLoad::Deleted(path) => {
                    let names = self.names_from_source(path.as_str());
                    self.remove_names(&names, &mut report.removed);
                    proof {
                        let nv = name_views(names@);
                        assert(name_views(report.removed@) == name_views(removed0) + nv);
                        vstd::seq_lib::seq_to_set_distributes_over_add(name_views(removed0), nv);
                    }
                },
            }
            assert(rest@ =~= all.skip(k + 1));
            k += 1;
        }
        assert(all.take(k as int) =~= all);
        assert(name_views(report.updated@).len() == report.updated@.len());
        assert(name_views(report.added@).len() == report.added@.len());
        if report.has_changes() {
            proof {
                let rv = name_views(report.removed@);
                if report.removed@.len() > 0 {
                    assert(rv.to_set().contains(rv[0]));
                }
            }
            Some(report)
        } else {
            proof {
                if watch_removed(m0, all) != Set::<Seq<char>>::empty() {
                    assert(name_views(report.removed@).len() == 0);
                    assert(name_views(report.removed@).to_set() =~= Set::<Seq<char>>::empty());
                }
            }
            None
        }
    }

    /// Registers a skill given in full (not read from disk).  Its content
    /// hash is that of the text `register_content` gives.  A name already
    /// registered is refused with `Duplicate`.
    pub fn register(&mut self, skill: Skill) -> (r: Result<(), CoreError>)
        requires
            old(self).wf(),
            skill.wf(),
        ensures
            final(self).wf(),
            final(self).directories_spec() == old(self).directories_spec(),
            old(self).view().dom().contains(skill.name@) ==> {
                &&& r matches Err(CoreError::Duplicate(n)) && n@ == skill.name@
                &&& final(self).view() == old(self).view()
            },
            !old(self).view().dom().contains(skill.name@) ==> {
                let e = final(self).view()[skill.name@];
                &&& r is Ok
                &&& final(self).view().dom() == old(self).view().dom().insert(skill.name@)
                &&& final(self).view().remove(skill.name@) == old(self).view()
                &&& e.full == Some(skill)
                &&& e.stats == SkillStats::zero()
                &&& describes(
                    e.metadata,
                    skill,
                    xxh64_digest(
                        vstd::utf8::encode_utf8(
                            register_content(skill.name@, skill.description@, skill.instructions@),
                        ),
                        0,
                    ),
                )
            },
    {
        if self.skills.contains_key(skill.name.as_str()) {
            return Err(CoreError::Duplicate(skill.name.clone()));
        }
        let mut content = owned("---\nname: ");
        push_str(&mut content, skill.name.as_str());
        push_str(&mut content, "\ndescription: ");
        push_str(&mut content, skill.description.as_str());
        push_str(&mut content, "\n---\n\n");
        push_str(&mut content, skill.instructions.as_str());
        assert(content@ =~= register_content(skill.name@, skill.description@, skill.instructions@));
        let hash = content_hash(content.as_str());
        let metadata = SkillMetadata::from_skill(&skill, hash);
        let key = owned(skill.name.as_str());
        let ghost m0 = self.skills.view();
        let ghost sk = skill;
        self.skills.insert(
            key,
            SkillEntry { metadata, full: Some(skill), stats: SkillStats::default() },
        );
        assert(self.skills.view().remove(sk.name@) =~= m0);
        Ok(())
    }

    /// Deregisters a skill; `NotFound` if there is none of that name.
    pub fn deregister(&mut self, name: &SkillName) -> (r: Result<(), CoreError>)
        requires
            old(self).wf(),
        ensures
            final(self).wf(),
            final(self).directories_spec() == old(self).directories_spec(),
            final(self).view() == old(self).view().remove(name@),
            r is Ok <==> old(self).view().dom().contains(name@),
            r matches Err(e) ==> e matches CoreError::NotFound(n) && n@ == name@,
    {
        match self.skills.remove(name.as_str()) {
            Some(_) => Ok(()),
            None => Err(CoreError::NotFound(name.clone())),
        }
    }

    /// Number of registered skills.
    pub fn len(&self) -> (n: usize)
        requires
            self.wf(),
        ensures
            n == self.view().dom().len(),
    {
        self.skills.len()
    }

    /// Check if registry is empty.
    pub fn is_empty(&self) -> (b: bool)
        requires
            self.wf(),
        ensures
            b == (self.view().dom().len() == 0),
    {
        self.skills.is_empty()
    }

    /// The names of the registered skills, each once.
    pub fn names(&self) -> (r: Vec<SkillName>)
        requires
            self.wf(),
        ensures
            name_views(r@).to_set() == self.view().dom(),
            name_views(r@).no_duplicates(),
    {
        let none: StrMap<()> = StrMap::new();
        let r = self.names_not_in(&none);
        assert(self.view().dom().difference(none.view().dom()) =~= self.view().dom());
        r
    }

    /// Metadata of every registered skill, one per skill.
    pub fn catalog(&self) -> (r: Vec<SkillMetadata>)
        requires
            self.wf(),
        ensures
            r@.len() == self.view().dom().len(),
            forall|i: int|
                0 <= i < r@.len() ==> self.view().dom().contains(#[trigger] r@[i].name@)
                    && same_metadata(r@[i], self.view()[r@[i].name@].metadata),
            forall|i: int, j: int| 0 <= i < j < r@.len() ==> r@[i].name@ != r@[j].name@,
    {
        proof {
            self.skills.lemma_view();
            self.skills.lemma_keys_distinct();
        }
        let ghost es = self.skills.entries();
        let n = self.skills.len();
        let mut out: Vec<SkillMetadata> = Vec::new();
        let mut i: usize = 0;
        while i < n
            invariant
                self.wf(),
                es == self.skills.entries(),
                n == es.len(),
                n == self.view().dom().len(),
                i <= n,
                out@.len() == i,
                forall|a: int| 0 <= a < i ==> (#[trigger] out@[a]).name@ == es[a].0@,
                forall|a: int|
                    0 <= a < i ==> self.view().dom().contains(#[trigger] out@[a].name@)
                        && same_metadata(out@[a], self.view()[out@[a].name@].metadata),
            decreases n - i,
        {
            let (_, e) = self.skills.entry_at(i);
            proof {
                self.skills.lemma_view();
                assert(self.skills.view()[es[i as int].0@] == es[i as int].1);
                assert(self.skills.view().dom().contains(es[i as int].0@));
            }
            out.push(e.metadata.copy());
            i += 1;
        }
        proof {
            self.skills.lemma_keys_distinct();
            assert forall|a: int, b: int| 0 <= a < b < out@.len() implies out@[a].name@ != out@[b].name@ by {
                assert(out@[a].name@ == es[a].0@);
                assert(out@[b].name@ == es[b].0@);
            }
        }
        out
    }

    /// Metadata of the named skill.
    pub fn get_metadata(&self, name: &SkillName) -> (r: Option<SkillMetadata>)
        requires
            self.wf(),
        ensures
            r is Some <==> self.view().dom().contains(name@),
            r matches Some(m) ==> same_metadata(m, self.view()[name@].metadata),
    {
        match self.skills.get(name.as_str()) {
            Some(e) => Some(e.metadata.copy()),
            None => None,
        }
    }

    /// Statistics of the named skill.
    pub fn get_stats(&self, name: &SkillName) -> (r: Option<SkillStats>)
        requires
            self.wf(),
        ensures
            r is Some <==> self.view().dom().contains(name@),
            r matches Some(s) ==> s == self.view()[name@].stats,
    {
        match self.skills.get(name.as_str()) {
            Some(e) => Some(e.stats),
            None => None,
        }
    }

    /// Replaces the statistics of the named skill by `f` of them; nothing
    /// happens when there is no such skill.
    pub fn update_stats<F: Fn(SkillStats) -> SkillStats>(&mut self, name: &SkillName, f: F)
        requires
            old(self).wf(),
            forall|s: SkillStats| call_requires(f, (s,)),
        ensures
            final(self).wf(),
            final(self).directories_spec() == old(self).directories_spec(),
            !old(self).view().dom().contains(name@) ==> final(self).view() == old(self).view(),
            old(self).view().dom().contains(name@) ==> exists|s: SkillStats|
                {
                    &&& #[trigger] call_ensures(f, (old(self).view()[name@].stats,), s)
                    &&& final(self).view() == old(self).view().insert(
                        name@,
                        SkillEntry {
                            metadata: old(self).view()[name@].metadata,
                            full: old(self).view()[name@].full,
                            stats: s,
                        },
                    )
                },
    {
        proof {
            self.skills.lemma_view();
        }
        match self.skills.index_of(name.as_str()) {
            Some(i) => {
                let ghost m0 = self.skills.view();
                let (key, e) = self.skills.take_at(i);
                let s = f(e.stats);
                let ghost e0 = e;
                let entry = SkillEntry { metadata: e.metadata, full: e.full, stats: s };
                self.skills.put_at(i, key, entry);
                assert(self.skills.view() =~= m0.insert(
                    name@,
                    SkillEntry { metadata: e0.metadata, full: e0.full, stats: s },
                ));
            },
            None => {},
        }
    }

    /// The loaded skill of that name: `NotFound` if there is none, `None`
    /// if it is not loaded yet.
    pub fn loaded(&self, name: &SkillName) -> (r: Result<Option<&Skill>, CoreError>)
        requires
            self.wf(),
        ensures
            !self.view().dom().contains(name@) ==> (r matches Err(CoreError::NotFound(n)) && n@
                == name@),
            self.view().dom().contains(name@) ==> (r matches Ok(o) && (match o {
                Some(sk) => self.view()[name@].full == Some(*sk),
                None => self.view()[name@].full is None,
            })),
    {
        match self.skills.get(name.as_str()) {
            Some(e) => Ok(e.full.as_ref()),
            None => Err(CoreError::NotFound(name.clone())),
        }
    }

    /// Keeps the full skill loaded for that name; `NotFound` if there is no
    /// skill of that name.
    pub fn set_loaded(&mut self, name: &SkillName, skill: Skill) -> (r: Result<(), CoreError>)
        requires
            old(self).wf(),
        ensures
            final(self).wf(),
            final(self).directories_spec() == old(self).directories_spec(),
            !old(self).view().dom().contains(name@) ==> final(self).view() == old(self).view(),
            !old(self).view().dom().contains(name@) ==> (r matches Err(CoreError::NotFound(n)) && n@
                == name@),
            old(self).view().dom().contains(name@) ==> {
                let e = old(self).view()[name@];
                &&& r is Ok
                &&& final(self).view() == old(self).view().insert(
                    name@,
                    SkillEntry { metadata: e.metadata, full: Some(skill), stats: e.stats },
                )
            },
    {
        proof {
            self.skills.lemma_view();
        }
        match self.skills.index_of(name.as_str()) {
            Some(i) => {
                let ghost m0 = self.skills.view();
                let ghost sk = skill;
                let (key, e) = self.skills.take_at(i);
                let ghost e0 = e;
                let entry = SkillEntry { metadata: e.metadata, full: Some(skill), stats: e.stats };
                self.skills.put_at(i, key, entry);
                assert(self.skills.view() =~= m0.insert(
                    name@,
                    SkillEntry { metadata: e0.metadata, full: Some(sk), stats: e0.stats },
                ));
                Ok(())
            },
            None => Err(CoreError::NotFound(name.clone())),
        }
    }
}


/// Every successfully scanned name is in the registry after the scans.
proof fn lemma_scanned_present(
    m: Map<Seq<char>, SkillEntry>,
    s: Seq<(String, Result<SkillMetadata, ParseError>)>,
)
    ensures
        seen_names(s).subset_of(scan_fold(m, s).dom()),
        forall|k: Seq<char>| #[trigger] m.dom().contains(k) ==> scan_fold(m, s).dom().contains(k),
    decreases s.len(),
{
    if s.len() > 0 {
        lemma_scanned_present(m, s.drop_last());
    }
}

/// A refresh leaves exactly the skills that scanned successfully.
pub proof fn law_refresh_keeps_exactly_scanned(
    m: Map<Seq<char>, SkillEntry>,
    s: Seq<(String, Result<SkillMetadata, ParseError>)>,
)
    ensures
        scan_fold(m, s).restrict(seen_names(s)).dom() == seen_names(s),
{
    lemma_scanned_present(m, s);
    assert(scan_fold(m, s).restrict(seen_names(s)).dom() =~= seen_names(s));
}

/// The names registered after applying scans: those registered before and
/// those scanned.
proof fn lemma_scan_dom(
    m: Map<Seq<char>, SkillEntry>,
    s: Seq<(String, Result<SkillMetadata, ParseError>)>,
)
    ensures
        scan_fold(m, s).dom() == m.dom().union(seen_names(s)),
    decreases s.len(),
{
    if s.len() > 0 {
        lemma_scan_dom(m, s.drop_last());
    }
    assert(scan_fold(m, s).dom() =~= m.dom().union(seen_names(s)));
}

/// A name a scan parsed to is among the scanned names.
proof fn lemma_scan_in_seen(s: Seq<(String, Result<SkillMetadata, ParseError>)>, i: int, n: Seq<char>)
    requires
        0 <= i < s.len(),
        scans_as(s[i].1, n),
    ensures
        seen_names(s).contains(n),
    decreases s.len(),
{
    if i < s.len() - 1 {
        assert(s.drop_last()[i] == s[i]);
        lemma_scan_in_seen(s.drop_last(), i, n);
    }
}

/// Scans that never parsed to `n` leave its entry as it was.
proof fn lemma_untouched(
    m: Map<Seq<char>, SkillEntry>,
    s: Seq<(String, Result<SkillMetadata, ParseError>)>,
    n: Seq<char>,
)
    requires
        !seen_names(s).contains(n),
    ensures
        scan_fold(m, s).dom().contains(n) == m.dom().contains(n),
        m.dom().contains(n) ==> scan_fold(m, s)[n] == m[n],
    decreases s.len(),
{
    if s.len() > 0 {
        lemma_untouched(m, s.drop_last(), n);
    }
}

/// The registered names whose content hash some scan changed.
pub open spec fn changed_names(
    m: Map<Seq<char>, SkillEntry>,
    s: Seq<(String, Result<SkillMetadata, ParseError>)>,
) -> Set<Seq<char>> {
    Set::new(
        |n: Seq<char>|
            m.dom().contains(n) && exists|i: int|
                0 <= i < s.len() && scans_as(#[trigger] s[i].1, n) && s[i].1->Ok_0.content_hash != m[n].metadata.content_hash,
    )
}

/// When no name scans twice, a refresh reports as updated exactly the
/// registered names whose content hash the scan changed.
pub proof fn law_refresh_updated_are_changed(
    m: Map<Seq<char>, SkillEntry>,
    s: Seq<(String, Result<SkillMetadata, ParseError>)>,
)
    requires
        distinct_scans(s),
    ensures
        scan_updated(m, s).to_set() == changed_names(m, s),
    decreases s.len(),
{
    if s.len() == 0 {
        assert(scan_updated(m, s).to_set() =~= changed_names(m, s));
    } else {
        let p = s.drop_last();
        assert(distinct_scans(p)) by {
            assert forall|i: int, j: int| 0 <= i < j < p.len() implies !(scans_as(#[trigger] p[i].1, p[j].1->Ok_0.name@)
                && #[trigger] p[j].1 is Ok) by {
                assert(p[i] == s[i] && p[j] == s[j]);
            }
        }
        law_refresh_updated_are_changed(m, p);
        let u = scan_updated(m, p);
        let last = s.len() - 1;
        assert(s[last] == s.last());
        match s.last().1 {
            Ok(md) => {
                let n0 = md.name@;
                assert(!seen_names(p).contains(n0)) by {
                    lemma_seen_has_scan(p, n0);
                    if seen_names(p).contains(n0) {
                        let i = choose|i: int| 0 <= i < p.len() && scans_as(p[i].1, n0);
                        assert(p[i] == s[i]);
                    }
                }
                lemma_untouched(m, p, n0);
                u.lemma_push_to_set_commute(n0);
                assert forall|k: Seq<char>| #[trigger] scan_updated(m, s).to_set().contains(k) == changed_names(m, s).contains(k) by {
                    if k != n0 {
                        if changed_names(m, s).contains(k) {
                            let i = choose|i: int|
                                0 <= i < s.len() && scans_as(#[trigger] s[i].1, k) && s[i].1->Ok_0.content_hash != m[k].metadata.content_hash;
                            assert(i < last);
                            assert(p[i] == s[i]);
                            assert(changed_names(m, p).contains(k));
                        }
                        if changed_names(m, p).contains(k) {
                            let i = choose|i: int|
                                0 <= i < p.len() && scans_as(#[trigger] p[i].1, k) && p[i].1->Ok_0.content_hash != m[k].metadata.content_hash;
                            assert(p[i] == s[i]);
                        }
                    } else {
                        if changed_names(m, p).contains(k) {
                            let i = choose|i: int|
                                0 <= i < p.len() && scans_as(#[trigger] p[i].1, k) && p[i].1->Ok_0.content_hash != m[k].metadata.content_hash;
                            lemma_scan_in_seen(p, i, k);
                        }
                        assert(!u.to_set().contains(k));
                        if m.dom().contains(k) && md.content_hash != m[k].metadata.content_hash {
                            assert(scans_as(s[last].1, k));
                        }
                    }
                }
                assert(scan_updated(m, s).to_set() =~= changed_names(m, s));
            },
            Err(_) => {
                assert forall|k: Seq<char>| #[trigger] scan_updated(m, s).to_set().contains(k) == changed_names(m, s).contains(k) by {
                    if changed_names(m, s).contains(k) {
                        let i = choose|i: int|
                            0 <= i < s.len() && scans_as(#[trigger] s[i].1, k) && s[i].1->Ok_0.content_hash != m[k].metadata.content_hash;
                        assert(i < last);
                        assert(p[i] == s[i]);
                    }
                    if changed_names(m, p).contains(k) {
                        let i = choose|i: int|
                            0 <= i < p.len() && scans_as(#[trigger] p[i].1, k) && p[i].1->Ok_0.content_hash != m[k].metadata.content_hash;
                        assert(p[i] == s[i]);
                    }
                }
                assert(scan_updated(m, s).to_set() =~= changed_names(m, s));
            },
        }
    }
}

/// Whether a watch load is a skill that loaded under the name `n`.
pub open spec fn loads_as(l: WatchLoad, n: Seq<char>) -> bool {
    l matches WatchLoad::Loaded(_, Ok(md)) && md.name@ == n
}

/// Reports only grow as more loads are processed, and every reported name
/// was loaded.
proof fn lemma_watch_changes_grow(m: Map<Seq<char>, SkillEntry>, s: Seq<WatchLoad>, k: int, n: Seq<char>)
    requires
        0 <= k <= s.len(),
    ensures
        watch_added(m, s.take(k)).contains(n) ==> watch_added(m, s).contains(n),
        watch_updated(m, s.take(k)).contains(n) ==> watch_updated(m, s).contains(n),
        watch_added(m, s).contains(n) || watch_updated(m, s).contains(n) ==> exists|j: int|
            0 <= j < s.len() && #[trigger] loads_as(s[j], n),
    decreases s.len(),
{
    if s.len() > 0 {
        let p = s.drop_last();
        if k < s.len() {
            assert(s.take(k) =~= p.take(k));
            lemma_watch_changes_grow(m, p, k, n);
        } else {
            assert(s.take(k) =~= s);
            lemma_watch_changes_grow(m, p, 0, n);
        }
        let a = watch_added(m, p);
        let u = watch_updated(m, p);
        if a.contains(n) {
            let i = choose|i: int| 0 <= i < a.len() && a[i] == n;
            match s.last() {
                WatchLoad::Loaded(_, Ok(md)) => {
                    if !(a.contains(md.name@) || u.contains(md.name@)) && !watch_fold(m, p).dom().contains(md.name@) {
                        assert(watch_added(m, s)[i] == n);
                    } else {
                        assert(watch_added(m, s) == a);
                    }
                },
                _ => {},
            }
        }
        if u.contains(n) {
            let i = choose|i: int| 0 <= i < u.len() && u[i] == n;
            match s.last() {
                WatchLoad::Loaded(_, Ok(md)) => {
                    if !(a.contains(md.name@) || u.contains(md.name@)) && watch_fold(m, p).dom().contains(md.name@) {
                        assert(watch_updated(m, s)[i] == n);
                    } else {
                        assert(watch_updated(m, s) == u);
                    }
                },
                _ => {},
            }
        }
        if watch_added(m, s).contains(n) || watch_updated(m, s).contains(n) {
            if a.contains(n) || u.contains(n) {
                let j = choose|j: int| 0 <= j < p.len() && #[trigger] loads_as(p[j], n);
                assert(s[j] == p[j]);
            } else {
                assert(s[s.len() - 1] == s.last());
                assert(loads_as(s[s.len() - 1], n));
            }
        }
    }
}

/// A skill the watcher loads is reported, as added or updated; when no
/// skill of its name was registered just before that load and none was
/// loaded earlier, it is reported as added and not as updated.
pub proof fn law_watch_new_skill_added(m: Map<Seq<char>, SkillEntry>, s: Seq<WatchLoad>, i: int)
    requires
        0 <= i < s.len(),
        s[i] is Loaded,
        s[i]->Loaded_1 is Ok,
    ensures
        watch_added(m, s).contains(s[i]->Loaded_1->Ok_0.name@) || watch_updated(m, s).contains(
            s[i]->Loaded_1->Ok_0.name@,
        ),
        (!watch_fold(m, s.take(i)).dom().contains(s[i]->Loaded_1->Ok_0.name@) && forall|j: int|
            0 <= j < i ==> !#[trigger] loads_as(s[j], s[i]->Loaded_1->Ok_0.name@)) ==> watch_added(m, s).contains(
            s[i]->Loaded_1->Ok_0.name@,
        ) && !watch_updated(m, s).contains(s[i]->Loaded_1->Ok_0.name@),
{
    let n = s[i]->Loaded_1->Ok_0.name@;
    let p = s.take(i);
    let q = s.take(i + 1);
    assert(q.drop_last() =~= p);
    assert(q.last() == s[i]);
    lemma_watch_changes_grow(m, s, i + 1, n);
    law_watch_reports_each_name_once(m, s);
    let a = watch_added(m, p);
    let u = watch_updated(m, p);
    if a.contains(n) || u.contains(n) {
        lemma_watch_changes_grow(m, p, 0, n);
        let j = choose|j: int| 0 <= j < p.len() && #[trigger] loads_as(p[j], n);
        assert(p[j] == s[j]);
        lemma_watch_changes_grow(m, s, i, n);
    } else if watch_fold(m, p).dom().contains(n) {
        assert(watch_updated(m, q) == u.push(n));
        assert(watch_updated(m, q).contains(n)) by {
            assert(u.push(n)[u.len() as int] == n);
        }
    } else {
        assert(watch_added(m, q) == a.push(n));
        assert(watch_added(m, q).contains(n)) by {
            assert(a.push(n)[a.len() as int] == n);
        }
    }
    if !watch_fold(m, p).dom().contains(n) && forall|j: int| 0 <= j < i ==> !#[trigger] loads_as(s[j], n) {
        if a.contains(n) || u.contains(n) {
            lemma_watch_changes_grow(m, p, 0, n);
            let j = choose|j: int| 0 <= j < p.len() && #[trigger] loads_as(p[j], n);
            assert(p[j] == s[j]);
        }
    }
}

/// Watch processing reports each loaded name once: no name is listed
/// twice as added or twice as updated, and none is listed as both.
pub proof fn law_watch_reports_each_name_once(m: Map<Seq<char>, SkillEntry>, s: Seq<WatchLoad>)
    ensures
        watch_added(m, s).no_duplicates(),
        watch_updated(m, s).no_duplicates(),
        forall|n: Seq<char>| !(#[trigger] watch_added(m, s).contains(n) && watch_updated(m, s).contains(n)),
    decreases s.len(),
{
    if s.len() > 0 {
        let p = s.drop_last();
        law_watch_reports_each_name_once(m, p);
        let a = watch_added(m, p);
        let u = watch_updated(m, p);
        match s.last() {
            WatchLoad::Loaded(_, Ok(md)) => {
                let n = md.name@;
                if !(a.contains(n) || u.contains(n)) {
                    assert forall|i: int, j: int| 0 <= i < j < a.push(n).len() implies a.push(n)[i] != a.push(n)[j] by {
                        if j == a.len() {
                            assert(a.contains(a[i]));
                        }
                    }
                    assert forall|i: int, j: int| 0 <= i < j < u.push(n).len() implies u.push(n)[i] != u.push(n)[j] by {
                        if j == u.len() {
                            assert(u.contains(u[i]));
                        }
                    }
                    assert forall|k: Seq<char>| !(#[trigger] a.push(n).contains(k) && u.contains(k)) by {
                        if a.push(n).contains(k) && u.contains(k) {
                            let i = choose|i: int| 0 <= i < a.push(n).len() && a.push(n)[i] == k;
                            if i < a.len() {
                                assert(a.contains(k));
                            }
                        }
                    }
                    assert forall|k: Seq<char>| !(#[trigger] a.contains(k) && u.push(n).contains(k)) by {
                        if a.contains(k) && u.push(n).contains(k) {
                            let i = choose|i: int| 0 <= i < u.push(n).len() && u.push(n)[i] == k;
                            if i < u.len() {
                                assert(u.contains(k));
                            }
                        }
                    }
                }
            },
            _ => {},
        }
    }
}

/// A scan result that parsed to the name `n`.
pub open spec fn scans_as(r: Result<SkillMetadata, ParseError>, n: Seq<char>) -> bool {
    r matches Ok(a) && a.name@ == n
}

/// A scanned name comes from a successful scan.
proof fn lemma_seen_has_scan(s: Seq<(String, Result<SkillMetadata, ParseError>)>, n: Seq<char>)
    ensures
        seen_names(s).contains(n) ==> exists|i: int| 0 <= i < s.len() && scans_as(#[trigger] s[i].1, n),
    decreases s.len(),
{
    if s.len() > 0 {
        let p = s.drop_last();
        lemma_seen_has_scan(p, n);
        if seen_names(p).contains(n) {
            let i = choose|i: int| 0 <= i < p.len() && scans_as(p[i].1, n);
            assert(s[i] == p[i]);
        } else if seen_names(s).contains(n) {
            assert(s[s.len() - 1] == s.last());
        }
    }
}

/// No name scans successfully twice.
pub open spec fn distinct_scans(s: Seq<(String, Result<SkillMetadata, ParseError>)>) -> bool {
    forall|i: int, j: int|
        0 <= i < j < s.len() ==> !(scans_as(#[trigger] s[i].1, s[j].1->Ok_0.name@) && #[trigger] s[j].1 is Ok)
}

/// A refresh reports as added exactly the scanned names that were not
/// registered, and removes exactly the registered names that did not scan;
/// when no name scans twice, every name it reports as updated was
/// registered and scanned.
pub proof fn law_refresh_reports_differences(
    m: Map<Seq<char>, SkillEntry>,
    s: Seq<(String, Result<SkillMetadata, ParseError>)>,
)
    ensures
        scan_added(m, s).to_set() == seen_names(s).difference(m.dom()),
        scan_fold(m, s).dom().difference(seen_names(s)) == m.dom().difference(seen_names(s)),
        distinct_scans(s) ==> scan_updated(m, s).to_set().subset_of(m.dom().intersect(seen_names(s))),
    decreases s.len(),
{
    lemma_scan_dom(m, s);
    assert(scan_fold(m, s).dom().difference(seen_names(s)) =~= m.dom().difference(seen_names(s)));
    if s.len() == 0 {
        assert(scan_added(m, s).to_set() =~= seen_names(s).difference(m.dom()));
        assert(scan_updated(m, s).to_set() =~= Set::<Seq<char>>::empty());
    } else {
        let p = s.drop_last();
        law_refresh_reports_differences(m, p);
        lemma_scan_dom(m, p);
        let a = scan_added(m, p);
        let u = scan_updated(m, p);
        a.lemma_push_to_set_commute(s.last().1->Ok_0.name@);
        u.lemma_push_to_set_commute(s.last().1->Ok_0.name@);
        assert(scan_added(m, s).to_set() =~= seen_names(s).difference(m.dom()));
        if distinct_scans(s) {
            assert(distinct_scans(p)) by {
                assert forall|i: int, j: int| 0 <= i < j < p.len() implies !(scans_as(#[trigger] p[i].1, p[j].1->Ok_0.name@)
                    && #[trigger] p[j].1 is Ok) by {
                    assert(p[i] == s[i] && p[j] == s[j]);
                }
            }
            if s.last().1 is Ok {
                let n = s.last().1->Ok_0.name@;
                assert(!seen_names(p).contains(n)) by {
                    lemma_seen_has_scan(p, n);
                    if seen_names(p).contains(n) {
                        let i = choose|i: int| 0 <= i < p.len() && scans_as(p[i].1, n);
                        assert(p[i] == s[i]);
                        assert(s[s.len() - 1] == s.last());
                    }
                }
            }
            assert forall|k: Seq<char>| #[trigger] scan_updated(m, s).to_set().contains(k) implies m.dom().intersect(
                seen_names(s),
            ).contains(k) by {
                if u.to_set().contains(k) {
                    assert(seen_names(p).subset_of(seen_names(s)));
                }
            }
        }
    }
}

/// A refresh keeps the statistics of every skill that was registered
/// before: applying scans never resets the statistics of a known name.
pub proof fn law_refresh_keeps_stats(
    m: Map<Seq<char>, SkillEntry>,
    s: Seq<(String, Result<SkillMetadata, ParseError>)>,
    k: Seq<char>,
)
    requires
        m.dom().contains(k),
    ensures
        scan_fold(m, s).dom().contains(k),
        scan_fold(m, s)[k].stats == m[k].stats,
    decreases s.len(),
{
    lemma_scanned_present(m, s);
    if s.len() > 0 {
        law_refresh_keeps_stats(m, s.drop_last(), k);
    }
}

/// After a refresh, a scanned skill carries the content hash of its last
/// scan.
pub proof fn law_refresh_latest_hash(
    m: Map<Seq<char>, SkillEntry>,
    s: Seq<(String, Result<SkillMetadata, ParseError>)>,
    i: int,
)
    requires
        0 <= i < s.len(),
        s[i].1 is Ok,
        forall|j: int|
            i < j < s.len() ==> !(#[trigger] s[j].1 matches Ok(md) && md.name@ == s[i].1->Ok_0.name@),
    ensures
        scan_fold(m, s).dom().contains(s[i].1->Ok_0.name@),
        scan_fold(m, s)[s[i].1->Ok_0.name@].metadata.content_hash == s[i].1->Ok_0.content_hash,
    decreases s.len(),
{
    if i < s.len() - 1 {
        let p = s.drop_last();
        assert(p[i] == s[i]);
        assert forall|j: int| i < j < p.len() implies !(#[trigger] p[j].1 matches Ok(md) && md.name@
            == p[i].1->Ok_0.name@) by {
            assert(p[j] == s[j]);
        }
        law_refresh_latest_hash(m, p, i);
        assert(!(s[s.len() - 1].1 matches Ok(md) && md.name@ == s[i].1->Ok_0.name@));
    }
}

/// After the watcher reports a deleted file, no skill read from that file
/// remains.
pub proof fn law_deleted_file_leaves_no_skill(
    m: Map<Seq<char>, SkillEntry>,
    s: Seq<WatchLoad>,
    path: String,
)
    ensures
        from_source(watch_fold(m, s.push(WatchLoad::Deleted(path))), path@) == Set::<
            Seq<char>,
        >::empty(),
{
    let s2 = s.push(WatchLoad::Deleted(path));
    assert(s2.drop_last() =~= s);
    assert(from_source(watch_fold(m, s2), path@) =~= Set::<Seq<char>>::empty());
}

/// After the watcher loads a skill, the registry holds it under its name
/// with fresh statistics and nothing loaded.
pub proof fn law_loaded_skill_present(
    m: Map<Seq<char>, SkillEntry>,
    s: Seq<WatchLoad>,
    path: String,
    md: SkillMetadata,
)
    ensures
        watch_fold(m, s.push(WatchLoad::Loaded(path, Ok(md))))[md.name@] == fresh_entry(
            md,
            SkillStats::zero(),
        ),
        watch_fold(m, s.push(WatchLoad::Loaded(path, Ok(md)))).dom().contains(md.name@),
{
    let s2 = s.push(WatchLoad::Loaded(path, Ok(md)));
    assert(s2.drop_last() =~= s);
}

/// Deregistering a skill right after registering it leaves the registry
/// holding what it held before.
pub proof fn law_register_then_deregister_restores(
    before: SkillRegistry,
    registered: SkillRegistry,
    after: SkillRegistry,
    name: Seq<char>,
)
    requires
        !before.view().dom().contains(name),
        registered.view().dom() == before.view().dom().insert(name),
        registered.view().remove(name) == before.view(),
        after.view() == registered.view().remove(name),
    ensures
        after.view() == before.view(),
{
}

} // verus!
