//! Progressive disclosure: what skill content is in the model's context,
//! within a token budget.
//!
//! Level 0 puts the catalog (name and description of every skill) in the
//! context, level 1 a skill's full instructions, level 2 its reference
//! files.  Token counts are estimated with `estimate_tokens`.

use vstd::prelude::*;

use crate::error::DiscloseError;
use crate::registry::{name_views, same_metadata, SkillRegistry};
use crate::schema::{estimate_tokens, token_estimate, Skill, SkillMetadata, SkillName};
use crate::strmap::StrMap;
use crate::text::{owned, push_str, views};

verus! {

/// Disclosure level for a skill.
#[derive(Debug, Clone, Copy, PartialEq, Eq, Structural)]
pub enum DisclosureLevel {
    /// Level 0: only name and description in context.
    Catalog,
    /// Level 1: full SKILL.md instructions loaded.
    Activated,
    /// Level 2: additional reference files loaded.
    Referenced,
}

impl DisclosureLevel {
    /// The numeric level.
    pub open spec fn level_spec(&self) -> u8 {
        match self {
            DisclosureLevel::Catalog => 0,
            DisclosureLevel::Activated => 1,
            DisclosureLevel::Referenced => 2,
        }
    }

    /// Whether the level includes the full instructions.
    pub open spec fn has_instructions_spec(&self) -> bool {
        !(*self is Catalog)
    }

    /// Get the numeric level (0, 1, or 2).
    pub fn level(&self) -> (r: u8)
        ensures
            r == self.level_spec(),
    {
        match self {
            DisclosureLevel::Catalog => 0,
            DisclosureLevel::Activated => 1,
            DisclosureLevel::Referenced => 2,
        }
    }

    /// Check if this level includes full instructions.
    pub fn has_instructions(&self) -> (b: bool)
        ensures
            b == self.has_instructions_spec(),
    {
        match self {
            DisclosureLevel::Catalog => false,
            _ => true,
        }
    }
}

impl Default for DisclosureLevel {
    fn default() -> (r: Self)
        ensures
            r == DisclosureLevel::Catalog,
    {
        DisclosureLevel::Catalog
    }
}

/// A skill loaded at some disclosure level.
#[derive(Debug)]
pub struct LoadedSkill {
    /// The skill name.
    pub name: SkillName,
    /// Current disclosure level.
    pub level: DisclosureLevel,
    /// Tokens used by this skill in context.
    pub tokens_used: usize,
    /// Reference files loaded (for level 2).
    pub loaded_files: Vec<String>,
}

impl LoadedSkill {
    /// Create a new loaded skill entry, with no reference file.
    pub fn new(name: SkillName, level: DisclosureLevel, tokens_used: usize) -> (r: LoadedSkill)
        ensures
            r.name == name,
            r.level == level,
            r.tokens_used == tokens_used,
            r.loaded_files@.len() == 0,
    {
        LoadedSkill { name, level, tokens_used, loaded_files: Vec::new() }
    }

    /// Add a loaded reference file: its tokens are added and the level
    /// becomes `Referenced`.
    pub fn add_file(&mut self, path: String, additional_tokens: usize)
        requires
            old(self).tokens_used + additional_tokens <= usize::MAX,
        ensures
            final(self).name == old(self).name,
            final(self).loaded_files@ == old(self).loaded_files@.push(path),
            final(self).tokens_used == old(self).tokens_used + additional_tokens,
            final(self).level == DisclosureLevel::Referenced,
    {
        self.loaded_files.push(path);
        self.tokens_used = self.tokens_used + additional_tokens;
        self.level = DisclosureLevel::Referenced;
    }
}

/// Token budget configuration.
#[derive(Debug, Clone, Copy, PartialEq, Eq, Structural)]
pub struct TokenBudget {
    /// Total budget for skills in context.
    pub max_tokens: usize,
    /// Reserved for the level 0 catalog.
    pub catalog_reserve: usize,
    /// Max tokens per activated skill.
    pub per_skill_max: usize,
}

impl Default for TokenBudget {
    fn default() -> (r: Self)
        ensures
            r == (TokenBudget { max_tokens: 50000, catalog_reserve: 5000, per_skill_max: 10000 }),
    {
        TokenBudget { max_tokens: 50000, catalog_reserve: 5000, per_skill_max: 10000 }
    }
}

impl TokenBudget {
    /// A budget with the given total: a tenth reserved for the catalog, a
    /// fifth at most per skill.
    pub fn with_max(max_tokens: usize) -> (r: Self)
        ensures
            r.max_tokens == max_tokens,
            r.catalog_reserve == max_tokens / 10,
            r.per_skill_max == max_tokens / 5,
    {
        TokenBudget { max_tokens, catalog_reserve: max_tokens / 10, per_skill_max: max_tokens / 5 }
    }
}

/// Payload returned when activating a skill.
#[derive(Debug)]
pub struct ActivationPayload {
    /// The skill name.
    pub skill_name: SkillName,
    /// Full SKILL.md instructions.
    pub instructions: String,
    /// Files that can be loaded on demand (references/, scripts/).
    pub available_references: Vec<String>,
    /// Token count of the instructions.
    pub tokens: usize,
}

/// Sum of the tokens of loaded skills.
pub open spec fn tokens_sum(es: Seq<(String, LoadedSkill)>) -> nat
    decreases es.len(),
{
    if es.len() == 0 {
        0
    } else {
        tokens_sum(es.drop_last()) + es.last().1.tokens_used as nat
    }
}

/// Dropping an entry takes its tokens off the sum.
pub proof fn lemma_tokens_sum_remove(es: Seq<(String, LoadedSkill)>, i: int)
    requires
        0 <= i < es.len(),
    ensures
        tokens_sum(es.remove(i)) + es[i].1.tokens_used == tokens_sum(es),
    decreases es.len(),
{
    if i == es.len() - 1 {
        assert(es.remove(i) =~= es.drop_last());
    } else {
        lemma_tokens_sum_remove(es.drop_last(), i);
        assert(es.remove(i).drop_last() =~= es.drop_last().remove(i));
        assert(es.remove(i).last() == es.last());
    }
}

/// Replacing an entry replaces its tokens in the sum.
pub proof fn lemma_tokens_sum_update(es: Seq<(String, LoadedSkill)>, i: int, x: (String, LoadedSkill))
    requires
        0 <= i < es.len(),
    ensures
        tokens_sum(es.update(i, x)) + es[i].1.tokens_used == tokens_sum(es) + x.1.tokens_used,
    decreases es.len(),
{
    if i == es.len() - 1 {
        assert(es.update(i, x).drop_last() =~= es.drop_last());
    } else {
        lemma_tokens_sum_update(es.drop_last(), i, x);
        assert(es.update(i, x).drop_last() =~= es.drop_last().update(i, x));
    }
}

/// The catalog prompt: a heading, then one line per skill.
pub open spec fn catalog_text(c: Seq<SkillMetadata>) -> Seq<char>
    decreases c.len(),
{
    if c.len() == 0 {
        "Available skills:"@
    } else {
        catalog_text(c.drop_last()) + "\n- "@ + c.last().name@ + ": "@ + c.last().description@
    }
}

/// `c` is a catalog of the registry: one copy of each skill's metadata.
pub open spec fn is_catalog(m: Map<Seq<char>, crate::registry::SkillEntry>, c: Seq<SkillMetadata>) -> bool {
    &&& c.len() == m.dom().len()
    &&& forall|i: int|
        0 <= i < c.len() ==> m.dom().contains(#[trigger] c[i].name@) && same_metadata(
            c[i],
            m[c[i].name@].metadata,
        )
    &&& forall|i: int, j: int| 0 <= i < j < c.len() ==> c[i].name@ != c[j].name@
}

/// Manages what skill content is loaded into the model's context window.
#[derive(Debug)]
pub struct ContextManager {
    /// Token budget.
    budget: TokenBudget,
    /// Currently loaded skills, by name.
    loaded: StrMap<LoadedSkill>,
    /// Tokens used by the catalog.
    catalog_tokens: usize,
}

impl ContextManager {
    /// The loaded skills, by name.
    pub closed spec fn view(&self) -> Map<Seq<char>, LoadedSkill> {
        self.loaded.view()
    }

    /// The budget.
    pub closed spec fn budget_spec(&self) -> TokenBudget {
        self.budget
    }

    /// Tokens used by the catalog.
    pub closed spec fn catalog_tokens_spec(&self) -> nat {
        self.catalog_tokens as nat
    }

    /// Tokens used by the loaded skills together.
    pub closed spec fn loaded_tokens(&self) -> nat {
        tokens_sum(self.loaded.entries())
    }

    /// Tokens in use: the catalog's and the loaded skills' (saturating at
    /// the largest `usize`).
    pub open spec fn used_spec(&self) -> nat {
        let t = self.catalog_tokens_spec() + self.loaded_tokens();
        if t > usize::MAX {
            usize::MAX as nat
        } else {
            t
        }
    }

    /// Tokens left in the budget (none once it is used up).
    pub open spec fn remaining_spec(&self) -> nat {
        if self.budget_spec().max_tokens >= self.used_spec() {
            (self.budget_spec().max_tokens - self.used_spec()) as nat
        } else {
            0
        }
    }

    /// Invariant: each skill is filed under its name, with its instructions
    /// loaded.
    pub closed spec fn wf(&self) -> bool {
        &&& self.loaded.wf()
        &&& forall|k: Seq<char>| #[trigger]
            self.loaded.view().dom().contains(k) ==> self.loaded.view()[k].name@ == k
                && self.loaded.view()[k].level.has_instructions_spec()
    }

    /// A context manager with the given budget and nothing loaded.
    pub fn new(budget: TokenBudget) -> (r: Self)
        ensures
            r.wf(),
            r.view() == Map::<Seq<char>, LoadedSkill>::empty(),
            r.budget_spec() == budget,
            r.catalog_tokens_spec() == 0,
            r.loaded_tokens() == 0,
    {
        ContextManager { budget, loaded: StrMap::new(), catalog_tokens: 0 }
    }

    /// The level 0 catalog for the system prompt: a heading, then the name
    /// and description of every registered skill.  Its token estimate
    /// becomes the catalog's share of the budget.
    pub fn catalog_prompt(&mut self, registry: &SkillRegistry) -> (r: String)
        requires
            old(self).wf(),
            registry.wf(),
        ensures
            final(self).wf(),
            exists|c: Seq<SkillMetadata>| is_catalog(registry.view(), c) && r@ == catalog_text(c),
            final(self).catalog_tokens_spec() == token_estimate(r@),
            final(self).view() == old(self).view(),
            final(self).loaded_tokens() == old(self).loaded_tokens(),
            final(self).budget_spec() == old(self).budget_spec(),
    {
        let catalog = registry.catalog();
        let mut prompt = owned("Available skills:");
        let mut i: usize = 0;
        while i < catalog.len()
            invariant
                i <= catalog@.len(),
                prompt@ == catalog_text(catalog@.take(i as int)),
            decreases catalog.len() - i,
        {
            push_str(&mut prompt, "\n- ");
            push_str(&mut prompt, catalog[i].name.as_str());
            push_str(&mut prompt, ": ");
            push_str(&mut prompt, catalog[i].description.as_str());
            assert(catalog@.take(i + 1).drop_last() =~= catalog@.take(i as int));
            i += 1;
        }
        assert(catalog@.take(i as int) =~= catalog@);
        assert(is_catalog(registry.view(), catalog@));
        self.catalog_tokens = estimate_tokens(prompt.as_str());
        prompt
    }

    /// Current total token usage (catalog plus loaded skills).
    pub fn tokens_used(&self) -> (n: usize)
        requires
            self.wf(),
        ensures
            n == self.used_spec(),
    {
        let ghost es = self.loaded.entries();
        let n = self.loaded.len();
        let mut total: usize = self.catalog_tokens;
        let mut i: usize = 0;
        while i < n
            invariant
                es == self.loaded.entries(),
                n == es.len(),
                i <= n,
                total == (if self.catalog_tokens + tokens_sum(es.take(i as int)) > usize::MAX {
                    usize::MAX as int
                } else {
                    self.catalog_tokens + tokens_sum(es.take(i as int))
                }),
            decreases n - i,
        {
            let (_, l) = self.loaded.entry_at(i);
            assert(es.take(i + 1).drop_last() =~= es.take(i as int));
            total = total.saturating_add(l.tokens_used);
            i += 1;
        }
        assert(es.take(i as int) =~= es);
        total
    }

    /// Remaining budget.
    pub fn tokens_remaining(&self) -> (n: usize)
        requires
            self.wf(),
        ensures
            n == self.remaining_spec(),
    {
        self.budget.max_tokens.saturating_sub(self.tokens_used())
    }

    /// Activates a skill: its full instructions go into the context.  The
    /// caller hands in the skill (from the registry) and the reference
    /// files found beside it.  An already activated skill is given again
    /// with the tokens it was counted at.  Otherwise its instructions are
    /// estimated, refused with `BudgetExceeded` when over the remaining
    /// budget, and recorded.
    pub fn activate(
        &mut self,
        name: &SkillName,
        skill: &Skill,
        references: Vec<String>,
    ) -> (r: Result<ActivationPayload, DiscloseError>)
        requires
            old(self).wf(),
        ensures
            final(self).wf(),
            final(self).budget_spec() == old(self).budget_spec(),
            final(self).catalog_tokens_spec() == old(self).catalog_tokens_spec(),
            old(self).view().dom().contains(name@) ==> {
                &&& final(self).view() == old(self).view()
                &&& final(self).loaded_tokens() == old(self).loaded_tokens()
                &&& r matches Ok(p) && p.skill_name@ == name@ && p.instructions@
                    == skill.instructions@ && p.available_references@ == references@ && p.tokens
                    == old(self).view()[name@].tokens_used
            },
            !old(self).view().dom().contains(name@) && token_estimate(skill.instructions@)
                > old(self).remaining_spec() ==> {
                &&& final(self).view() == old(self).view()
                &&& final(self).loaded_tokens() == old(self).loaded_tokens()
                &&& r matches Err(DiscloseError::BudgetExceeded { needed, available }) && needed
                    == token_estimate(skill.instructions@) && available
                    == old(self).remaining_spec()
            },
            !old(self).view().dom().contains(name@) && token_estimate(skill.instructions@)
                <= old(self).remaining_spec() ==> {
                let t = token_estimate(skill.instructions@);
                &&& activated_from(*old(self), *final(self), name@, t)
                &&& final(self).view()[name@].level == DisclosureLevel::Activated
                &&& final(self).view()[name@].loaded_files@.len() == 0
                &&& r matches Ok(p) && p.skill_name@ == name@ && p.instructions@
                    == skill.instructions@ && p.available_references@ == references@ && p.tokens
                    == t
            },
    {
        proof {
            self.loaded.lemma_view();
        }
        match self.loaded.get(name.as_str()) {
            Some(l) => {
                if l.level.has_instructions() {
                    return Ok(
                        ActivationPayload {
                            skill_name: name.clone(),
                            instructions: skill.instructions.clone(),
                            available_references: references,
                            tokens: l.tokens_used,
                        },
                    );
                }
            },
            None => {},
        }
        let tokens = estimate_tokens(skill.instructions.as_str());
        let available = self.tokens_remaining();
        if tokens > available {
            return Err(DiscloseError::BudgetExceeded { needed: tokens, available });
        }
        let ghost es0 = self.loaded.entries();
        let ghost m0 = self.loaded.view();
        self.loaded.insert(
            owned(name.as_str()),
            LoadedSkill::new(name.clone(), DisclosureLevel::Activated, tokens),
        );
        proof {
            let es = self.loaded.entries();
            assert(es.drop_last() =~= es0);
            assert(self.loaded.view().remove(name@) =~= m0);
        }
        Ok(
            ActivationPayload {
                skill_name: name.clone(),
                instructions: skill.instructions.clone(),
                available_references: references,
                tokens,
            },
        )
    }

    /// Loads a reference file of an activated skill into the context: the
    /// caller hands in the file's path and content.  `NotActivated` when
    /// the skill is not activated; `BudgetExceeded` when the content's
    /// estimate is over the remaining budget; otherwise the file is
    /// recorded and its content returned.
    pub fn load_reference_content(
        &mut self,
        skill: &SkillName,
        path: String,
        content: String,
    ) -> (r: Result<String, DiscloseError>)
        requires
            old(self).wf(),
        ensures
            final(self).wf(),
            final(self).budget_spec() == old(self).budget_spec(),
            final(self).catalog_tokens_spec() == old(self).catalog_tokens_spec(),
            !old(self).view().dom().contains(skill@) ==> {
                &&& final(self).view() == old(self).view()
                &&& final(self).loaded_tokens() == old(self).loaded_tokens()
                &&& r matches Err(DiscloseError::NotActivated(n)) && n@ == skill@
            },
            old(self).view().dom().contains(skill@) && token_estimate(content@)
                > old(self).remaining_spec() ==> {
                &&& final(self).view() == old(self).view()
                &&& final(self).loaded_tokens() == old(self).loaded_tokens()
                &&& r matches Err(DiscloseError::BudgetExceeded { needed, available }) && needed
                    == token_estimate(content@) && available == old(self).remaining_spec()
            },
            old(self).view().dom().contains(skill@) && token_estimate(content@)
                <= old(self).remaining_spec() ==> {
                let l = old(self).view()[skill@];
                let t = token_estimate(content@);
                &&& final(self).view().dom() == old(self).view().dom()
                &&& final(self).view().remove(skill@) == old(self).view().remove(skill@)
                &&& final(self).view()[skill@].name == l.name
                &&& final(self).view()[skill@].level == DisclosureLevel::Referenced
                &&& final(self).view()[skill@].tokens_used == l.tokens_used + t
                &&& final(self).view()[skill@].loaded_files@ == l.loaded_files@.push(path)
                &&& final(self).loaded_tokens() == old(self).loaded_tokens() + t
                &&& r matches Ok(c) && c@ == content@
            },
    {
        proof {
            self.loaded.lemma_view();
        }
        let idx = match self.loaded.index_of(skill.as_str()) {
            Some(i) => i,
            None => {
                return Err(DiscloseError::NotActivated(skill.clone()));
            },
        };
        let tokens = estimate_tokens(content.as_str());
        let available = self.tokens_remaining();
        if tokens > available {
            return Err(DiscloseError::BudgetExceeded { needed: tokens, available });
        }
        let ghost es0 = self.loaded.entries();
        let ghost m0 = self.loaded.view();
        proof {
            lemma_tokens_sum_remove(es0, idx as int);
            assert(self.loaded.view()[es0[idx as int].0@] == es0[idx as int].1);
        }
        let (key, mut l) = self.loaded.take_at(idx);
        l.add_file(path, tokens);
        let ghost l1 = l;
        self.loaded.put_at(idx, key, l);
        proof {
            let es = self.loaded.entries();
            assert(es =~= es0.update(idx as int, (key, l1)));
            lemma_tokens_sum_update(es0, idx as int, (key, l1));
            assert(self.loaded.view().remove(skill@) =~= m0.remove(skill@));
            assert(self.loaded.view().dom() =~= m0.dom());
        }
        Ok(content)
    }

    /// Deactivate a skill, freeing context budget.
    pub fn deactivate(&mut self, name: &SkillName)
        requires
            old(self).wf(),
        ensures
            final(self).wf(),
            deactivated_from(*old(self), *final(self), name@),
    {
        proof {
            self.loaded.lemma_view();
        }
        let ghost es0 = self.loaded.entries();
        let r = self.loaded.remove(name.as_str());
        proof {
            if r is Some {
                let i = choose|i: int|
                    0 <= i < es0.len() && es0[i].0@ == name@ && self.loaded.entries() == es0.remove(
                        i,
                    );
                lemma_tokens_sum_remove(es0, i);
                assert(old(self).loaded.view()[es0[i].0@] == es0[i].1);
            }
        }
    }

    /// Deactivate all skills.
    pub fn deactivate_all(&mut self)
        requires
            old(self).wf(),
        ensures
            final(self).wf(),
            final(self).view() == Map::<Seq<char>, LoadedSkill>::empty(),
            final(self).loaded_tokens() == 0,
            final(self).budget_spec() == old(self).budget_spec(),
            final(self).catalog_tokens_spec() == old(self).catalog_tokens_spec(),
    {
        self.loaded.clear();
    }

    /// Number of activated skills.
    pub fn activated_count(&self) -> (n: usize)
        requires
            self.wf(),
        ensures
            n == self.view().dom().len(),
    {
        self.loaded.len()
    }

    /// Check if a skill is activated.
    pub fn is_activated(&self, name: &SkillName) -> (b: bool)
        requires
            self.wf(),
        ensures
            b == self.view().dom().contains(name@),
    {
        match self.loaded.get(name.as_str()) {
            Some(l) => l.level.has_instructions(),
            None => false,
        }
    }

    /// The loaded skills.
    pub fn loaded_skills(&self) -> (r: Vec<&LoadedSkill>)
        requires
            self.wf(),
        ensures
            r@.len() == self.view().dom().len(),
            forall|i: int| 0 <= i < r@.len() ==> self.view().dom().contains(#[trigger] r@[i].name@)
                && *r@[i] == self.view()[r@[i].name@],
    {
        proof {
            self.loaded.lemma_view();
        }
        let ghost es = self.loaded.entries();
        let n = self.loaded.len();
        let mut out: Vec<&LoadedSkill> = Vec::new();
        let mut i: usize = 0;
        while i < n
            invariant
                self.wf(),
                es == self.loaded.entries(),
                n == es.len(),
                n == self.view().dom().len(),
                i <= n,
                out@.len() == i,
                forall|a: int|
                    0 <= a < i ==> self.view().dom().contains(#[trigger] out@[a].name@) && *out@[a]
                        == self.view()[out@[a].name@],
            decreases n - i,
        {
            let (_, l) = self.loaded.entry_at(i);
            proof {
                self.loaded.lemma_view();
                assert(self.loaded.view()[es[i as int].0@] == es[i as int].1);
                assert(self.loaded.view().dom().contains(es[i as int].0@));
                assert(es[i as int].1.name@ == es[i as int].0@);
            }
            let ghost out0 = out@;
            out.push(l);
            proof {
                assert forall|a: int| 0 <= a < i + 1 implies self.view().dom().contains(
                    #[trigger] out@[a].name@,
                ) && *out@[a] == self.view()[out@[a].name@] by {
                    if a < i {
                        assert(out@[a] == out0[a]);
                    }
                }
            }
            i += 1;
        }
        out
    }
}

/// `after` is `before` with `name` newly activated at a cost of `t`
/// tokens: the same budget and catalog, one more skill, `t` more tokens.
pub open spec fn activated_from(before: ContextManager, after: ContextManager, name: Seq<char>, t: nat) -> bool {
    &&& after.budget_spec() == before.budget_spec()
    &&& after.catalog_tokens_spec() == before.catalog_tokens_spec()
    &&& after.view().dom() == before.view().dom().insert(name)
    &&& after.view().remove(name) == before.view()
    &&& after.view()[name].tokens_used == t
    &&& after.loaded_tokens() == before.loaded_tokens() + t
}

/// `after` is `before` with `name` unloaded: the same budget and catalog,
/// the skill gone and its tokens given back.
pub open spec fn deactivated_from(before: ContextManager, after: ContextManager, name: Seq<char>) -> bool {
    &&& after.budget_spec() == before.budget_spec()
    &&& after.catalog_tokens_spec() == before.catalog_tokens_spec()
    &&& after.view() == before.view().remove(name)
    &&& before.view().dom().contains(name) ==> after.loaded_tokens() + before.view()[name].tokens_used
        == before.loaded_tokens()
    &&& !before.view().dom().contains(name) ==> after.loaded_tokens() == before.loaded_tokens()
}

/// Deactivating a skill right after activating it gives the context back
/// as it was: the same loaded skills and the same tokens in use.
pub proof fn law_activate_then_deactivate_restores(
    before: ContextManager,
    active: ContextManager,
    after: ContextManager,
    name: Seq<char>,
    t: nat,
)
    requires
        !before.view().dom().contains(name),
        activated_from(before, active, name, t),
        deactivated_from(active, after, name),
    ensures
        after.view() == before.view(),
        after.loaded_tokens() == before.loaded_tokens(),
        after.used_spec() == before.used_spec(),
        after.remaining_spec() == before.remaining_spec(),
{
}

/// An activation never takes the context over its budget: a skill that
/// fits in what remains leaves the tokens in use within the maximum.
pub proof fn law_activation_stays_within_budget(
    before: ContextManager,
    after: ContextManager,
    name: Seq<char>,
    t: nat,
)
    requires
        before.used_spec() <= before.budget_spec().max_tokens,
        t <= before.remaining_spec(),
        activated_from(before, after, name, t),
    ensures
        after.used_spec() <= after.budget_spec().max_tokens,
{
}

} // verus!
