//! Enforcement: declarative policies on which skills may be activated,
//! hooks around activation and execution, and the pipeline that combines
//! them with output validation.

use vstd::prelude::*;

use crate::schema::SkillName;
use crate::strmap::StrMap;
use crate::text::{owned, push_str, str_eq, views};

verus! {

// ---------------------------------------------------------------------------
// Context and hook decisions
// ---------------------------------------------------------------------------

/// Context available to enforcement hooks and policies.
#[derive(Debug)]
pub struct EnforcementContext {
    /// User identifier (if available).
    pub user_id: Option<String>,
    /// Session identifier (if available).
    pub session_id: Option<String>,
    /// Recent conversation history.
    pub conversation_history: Vec<String>,
    /// Active policy names.
    pub active_policies: Vec<String>,
    /// Custom context data: for each key, the value's text when the value
    /// is a JSON string (`None` for other JSON values).
    pub custom: StrMap<Option<String>>,
}

impl EnforcementContext {
    /// Invariant.
    pub open spec fn wf(&self) -> bool {
        self.custom.wf()
    }

    /// A new empty context.
    pub fn new() -> (r: Self)
        ensures
            r.wf(),
            r.user_id is None,
            r.session_id is None,
            r.conversation_history@.len() == 0,
            r.active_policies@.len() == 0,
            r.custom.view() == Map::<Seq<char>, Option<String>>::empty(),
    {
        EnforcementContext {
            user_id: None,
            session_id: None,
            conversation_history: Vec::new(),
            active_policies: Vec::new(),
            custom: StrMap::new(),
        }
    }

    /// Set user ID.
    pub fn with_user(self, user_id: &str) -> (r: Self)
        ensures
            r.user_id matches Some(u) && u@ == user_id@,
            r.session_id == self.session_id,
            r.conversation_history == self.conversation_history,
            r.active_policies == self.active_policies,
            r.custom == self.custom,
    {
        EnforcementContext { user_id: Some(owned(user_id)), ..self }
    }

    /// Set session ID.
    pub fn with_session(self, session_id: &str) -> (r: Self)
        ensures
            r.session_id matches Some(u) && u@ == session_id@,
            r.user_id == self.user_id,
            r.conversation_history == self.conversation_history,
            r.active_policies == self.active_policies,
            r.custom == self.custom,
    {
        EnforcementContext { session_id: Some(owned(session_id)), ..self }
    }

    /// Set the conversation history.
    pub fn with_history(self, history: Vec<String>) -> (r: Self)
        ensures
            r.conversation_history == history,
            r.user_id == self.user_id,
            r.session_id == self.session_id,
            r.active_policies == self.active_policies,
            r.custom == self.custom,
    {
        EnforcementContext { conversation_history: history, ..self }
    }

    /// Add custom context data: `value` is the text of the JSON value
    /// given, when it is a JSON string, and `None` otherwise.
    pub fn with_custom(self, key: &str, value: Option<String>) -> (r: Self)
        requires
            self.wf(),
        ensures
            r.wf(),
            r.custom.view() == self.custom.view().insert(key@, value),
            r.user_id == self.user_id,
            r.session_id == self.session_id,
            r.conversation_history == self.conversation_history,
            r.active_policies == self.active_policies,
    {
        let mut custom = self.custom;
        custom.insert(owned(key), value);
        EnforcementContext {
            user_id: self.user_id,
            session_id: self.session_id,
            conversation_history: self.conversation_history,
            active_policies: self.active_policies,
            custom,
        }
    }
}

/// Decision returned by a hook.
#[derive(Debug)]
pub enum HookDecision {
    /// Allow the operation to proceed.
    Allow,
    /// Allow, but modify the input/output.
    Modify(String),
    /// Cancel the operation with a reason; the model receives this message
    /// instead of executing.
    Cancel { reason: String, suggest_alternative: Option<SkillName> },
    /// Require human approval before proceeding, within a timeout given in
    /// whole seconds.
    RequireApproval { reason: String, timeout_secs: u64 },
}

impl HookDecision {
    /// Create an Allow decision.
    pub fn allow() -> (r: Self)
        ensures
            r is Allow,
    {
        HookDecision::Allow
    }

    /// Create a Modify decision.
    pub fn modify(content: &str) -> (r: Self)
        ensures
            r matches HookDecision::Modify(c) && c@ == content@,
    {
        HookDecision::Modify(owned(content))
    }

    /// Create a Cancel decision.
    pub fn cancel(reason: &str) -> (r: Self)
        ensures
            r matches HookDecision::Cancel { reason: m, suggest_alternative } && m@ == reason@
                && suggest_alternative is None,
    {
        HookDecision::Cancel { reason: owned(reason), suggest_alternative: None }
    }

    /// Create a Cancel decision with an alternative suggestion.
    pub fn cancel_with_alternative(reason: &str, alternative: SkillName) -> (r: Self)
        ensures
            r matches HookDecision::Cancel { reason: m, suggest_alternative } && m@ == reason@
                && suggest_alternative == Some(alternative),
    {
        HookDecision::Cancel { reason: owned(reason), suggest_alternative: Some(alternative) }
    }

    /// Create a RequireApproval decision.
    pub fn require_approval(reason: &str, timeout_secs: u64) -> (r: Self)
        ensures
            r matches HookDecision::RequireApproval { reason: m, timeout_secs: t } && m@ == reason@
                && t == timeout_secs,
    {
        HookDecision::RequireApproval { reason: owned(reason), timeout_secs }
    }

    /// Check if this is an allow decision (allow or modify).
    pub fn is_allowed(&self) -> (b: bool)
        ensures
            b == (self is Allow || self is Modify),
    {
        match self {
            HookDecision::Allow => true,
            HookDecision::Modify(_) => true,
            _ => false,
        }
    }

    /// Check if this is a cancel decision.
    pub fn is_cancelled(&self) -> (b: bool)
        ensures
            b == self is Cancel,
    {
        matches!(self, HookDecision::Cancel { .. })
    }

    /// Check if this requires approval.
    pub fn requires_approval(&self) -> (b: bool)
        ensures
            b == self is RequireApproval,
    {
        matches!(self, HookDecision::RequireApproval { .. })
    }
}

/// Whether a hook decision ends a run of hooks: a cancel or an approval
/// request.
pub open spec fn stops(d: HookDecision) -> bool {
    d is Cancel || d is RequireApproval
}

/// `ds` is what a run of `n` hooks can have returned: one decision per hook
/// called, in order, the run ending early only at a cancel or an approval
/// request.
pub open spec fn hook_run(ds: Seq<HookDecision>, n: nat) -> bool {
    &&& ds.len() <= n
    &&& forall|i: int| 0 <= i < ds.len() - 1 ==> !stops(#[trigger] ds[i])
    &&& ds.len() < n ==> ds.len() > 0 && stops(ds.last())
}

/// `ds` is what the before hooks `hooks` returned, in order, when asked
/// about activating `skill` on `query` in context `ctx`: a run of them
/// (see `hook_run`) and each decision one its hook may give.
pub open spec fn before_run(
    hooks: Seq<Box<dyn BeforeSkillActivation>>,
    skill: Seq<char>,
    query: Seq<char>,
    ctx: EnforcementContext,
    ds: Seq<HookDecision>,
) -> bool {
    &&& hook_run(ds, hooks.len())
    &&& forall|i: int| 0 <= i < ds.len() ==> hooks[i].decides(skill, query, ctx, #[trigger] ds[i])
}

/// `ds` is what the after hooks `hooks` returned, in order, for the output
/// `output` of `skill` in context `ctx`: a run of them, each hook handed
/// the output as the hooks before it left it (see `modified_output`).
pub open spec fn after_run(
    hooks: Seq<Box<dyn AfterSkillExecution>>,
    skill: Seq<char>,
    output: Seq<char>,
    ctx: EnforcementContext,
    ds: Seq<HookDecision>,
) -> bool {
    &&& hook_run(ds, hooks.len())
    &&& forall|i: int|
        0 <= i < ds.len() ==> hooks[i].decides(skill, modified_output(output, ds.take(i)), ctx, #[trigger] ds[i])
}

/// What before-activation hooks that returned `ds` decide: their last
/// decision other than allow, or allow.
pub open spec fn before_outcome(ds: Seq<HookDecision>) -> HookDecision
    decreases ds.len(),
{
    if ds.len() == 0 {
        HookDecision::Allow
    } else if ds.last() is Allow {
        before_outcome(ds.drop_last())
    } else {
        ds.last()
    }
}

/// What before-activation hooks that returned `ds` decide (see
/// `before_outcome`): their last decision other than allow, or allow.
pub fn before_decision(decisions: Vec<HookDecision>) -> (r: HookDecision)
    ensures
        r == before_outcome(decisions@),
{
    let mut ds = decisions;
    while ds.len() > 0
        invariant
            before_outcome(ds@) == before_outcome(decisions@),
        decreases ds.len(),
    {
        let ghost before = ds@;
        let d = ds.pop().unwrap();
        proof {
            assert(before.drop_last() =~= ds@);
        }
        if !matches!(d, HookDecision::Allow) {
            assert(d == before.last());
            assert(before_outcome(before) == d);
            return d;
        }
    }
    HookDecision::Allow
}

/// The output after hooks that returned `ds` had their say: the text of
/// the last modification, or the output itself.
pub open spec fn modified_output(output: Seq<char>, ds: Seq<HookDecision>) -> Seq<char>
    decreases ds.len(),
{
    if ds.len() == 0 {
        output
    } else {
        match ds.last() {
            HookDecision::Modify(m) => m@,
            _ => modified_output(output, ds.drop_last()),
        }
    }
}

/// Where after hooks that returned `ds`, in order, leave the output
/// `output`: the first cancel or approval request among them (`Err`), or
/// the text of the output as their modifications left it (`Ok`).
pub open spec fn after_outcome(output: Seq<char>, ds: Seq<HookDecision>) -> Result<Seq<char>, HookDecision>
    decreases ds.len(),
{
    if ds.len() == 0 {
        Ok(output)
    } else if stops(ds[0]) {
        Err(ds[0])
    } else {
        match ds[0] {
            HookDecision::Modify(m) => after_outcome(m@, ds.drop_first()),
            _ => after_outcome(output, ds.drop_first()),
        }
    }
}

/// Where after hooks that returned `decisions` leave the output (see
/// `after_outcome`): the first cancel or approval request, or the output
/// as modified.
pub fn after_decision(output: &str, decisions: Vec<HookDecision>) -> (r: Result<String, HookDecision>)
    ensures
        r matches Ok(o) ==> after_outcome(output@, decisions@) == Ok::<Seq<char>, HookDecision>(o@),
        r matches Err(d) ==> after_outcome(output@, decisions@) == Err::<Seq<char>, HookDecision>(d),
{
    let ghost all = decisions@;
    let mut current = owned(output);
    let mut rest = decisions;
    while rest.len() > 0
        invariant
            all == decisions@,
            after_outcome(current@, rest@) == after_outcome(output@, all),
        decreases rest.len(),
    {
        let ghost before = rest@;
        let d = rest.remove(0);
        assert(before.drop_first() =~= rest@);
        if d.is_cancelled() || d.requires_approval() {
            assert(d == before[0] && stops(before[0]));
            assert(after_outcome(current@, before) == Err::<Seq<char>, HookDecision>(d));
            return Err(d);
        }
        match d {
            HookDecision::Modify(m) => {
                current = m;
            },
            _ => {},
        }
    }
    Ok(current)
}

/// `r` is what the output validators `vs` make of the output `out` that
/// the after hooks left of the skill output `output`: when they find no
/// error, allow if `out` is `output` and the modification to `out`
/// otherwise; else a validation failure of `skill` with all their errors
/// joined by `; `.
pub open spec fn after_verdict(
    vs: Seq<Box<dyn crate::validator::Validator>>,
    skill: Seq<char>,
    output: Seq<char>,
    out: Seq<char>,
    r: Result<HookDecision, crate::error::EnforceError>,
) -> bool {
    exists|rs: Seq<crate::validator::ValidationResult>|
        {
            &&& #[trigger] crate::validator::results_of(vs, out, rs)
            &&& if crate::validator::collected_errors(rs).len() == 0 {
                if out == output {
                    r matches Ok(HookDecision::Allow)
                } else {
                    r matches Ok(HookDecision::Modify(m)) && m@ == out
                }
            } else {
                r matches Err(crate::error::EnforceError::ValidationFailed { skill: s, reason }) && s@ == skill
                    && reason@ == crate::text::joined(crate::validator::collected_errors(rs), "; "@)
            }
        }
}

/// `r` is what the pre-activation checks give after the policies decided
/// `d`: a denial cancels with the policy's reason (or `Denied by policy`);
/// a required approval asks for it for 300 seconds; otherwise the before
/// hooks `hooks` have their say (see `before_run` and `before_outcome`).
pub open spec fn before_result(
    d: (bool, Seq<Seq<char>>, Option<Seq<char>>, bool, Option<u32>),
    hooks: Seq<Box<dyn BeforeSkillActivation>>,
    skill: Seq<char>,
    query: Seq<char>,
    ctx: EnforcementContext,
    r: Result<HookDecision, crate::error::EnforceError>,
) -> bool {
    if !d.0 {
        r matches Ok(HookDecision::Cancel { reason, suggest_alternative }) && suggest_alternative is None
            && reason@ == (match d.2 {
            Some(m) => m,
            None => "Denied by policy"@,
        })
    } else if d.3 {
        r matches Ok(HookDecision::RequireApproval { reason, timeout_secs }) && reason@
            == "Policy requires approval"@ && timeout_secs == 300
    } else {
        exists|ds: Seq<HookDecision>|
            before_run(hooks, skill, query, ctx, ds) && r == Ok::<HookDecision, crate::error::EnforceError>(before_outcome(ds))
    }
}

/// What the pre-activation checks hand the audit log, after the policies
/// decided `d` and the checks gave `r`: an activation entry labelled
/// `denied` (with the policy's reason), `requires_approval`, or, when no
/// hook stopped the activation, `allowed`.
pub open spec fn before_audit(
    d: (bool, Seq<Seq<char>>, Option<Seq<char>>, bool, Option<u32>),
    log: Option<Box<dyn AuditLog>>,
    skill: Seq<char>,
    query: Seq<char>,
    ctx: EnforcementContext,
    r: Result<HookDecision, crate::error::EnforceError>,
) -> bool {
    &&& !d.0 ==> activation_logged(log, skill, query, ctx, "denied"@, d.2)
    &&& d.0 && d.3 ==> activation_logged(log, skill, query, ctx, "requires_approval"@, None)
    &&& d.0 && !d.3 && (r matches Ok(x) && !stops(x)) ==> activation_logged(log, skill, query, ctx, "allowed"@, None)
}

/// Hook that runs before a skill is activated; it can inspect, modify or
/// cancel the activation.
pub trait BeforeSkillActivation {
    /// Whether `d` is a decision this hook may return for activating the
    /// skill named `skill` on `query` in context `ctx`.  A hook that states
    /// nothing of itself may return any decision.
    open spec fn decides(&self, skill: Seq<char>, query: Seq<char>, ctx: EnforcementContext, d: HookDecision) -> bool {
        true
    }

    /// Called before a skill is activated.
    fn before_activate(&self, skill: &SkillName, query: &str, ctx: &EnforcementContext) -> (d: HookDecision)
        ensures
            self.decides(skill@, query@, *ctx, d),
    ;

    /// Hook name for logging; `unnamed-before-hook` unless the hook names itself.
    fn name(&self) -> (r: &str)
        default_ensures
            r@ == "unnamed-before-hook"@,
    {
        proof {
            reveal_strlit("unnamed-before-hook");
        }
        "unnamed-before-hook"
    }
}

/// Hook that runs after a skill produces output; it can inspect, modify
/// or reject the output.
pub trait AfterSkillExecution {
    /// Whether `d` is a decision this hook may return for the output
    /// `output` of the skill named `skill` in context `ctx`.  A hook that
    /// states nothing of itself may return any decision.
    open spec fn decides(&self, skill: Seq<char>, output: Seq<char>, ctx: EnforcementContext, d: HookDecision) -> bool {
        true
    }

    /// Called after a skill executes.
    fn after_execute(&self, skill: &SkillName, output: &str, ctx: &EnforcementContext) -> (d: HookDecision)
        ensures
            self.decides(skill@, output@, *ctx, d),
    ;

    /// Hook name for logging; `unnamed-after-hook` unless the hook names itself.
    fn name(&self) -> (r: &str)
        default_ensures
            r@ == "unnamed-after-hook"@,
    {
        proof {
            reveal_strlit("unnamed-after-hook");
        }
        "unnamed-after-hook"
    }
}

// ---------------------------------------------------------------------------
// Policies
// ---------------------------------------------------------------------------

/// A declarative policy with rules.
#[derive(Debug)]
pub struct Policy {
    /// Policy name.
    pub name: String,
    /// Policy rules.
    pub rules: Vec<PolicyRule>,
}

/// A single policy rule.
#[derive(Debug)]
pub struct PolicyRule {
    /// Glob pattern matching skill names.
    pub skill_pattern: String,
    /// Action to take when matched.
    pub action: PolicyAction,
    /// Conditions that must be met.
    pub conditions: Vec<Condition>,
}

/// Action to take when a policy rule matches.
#[derive(Debug)]
pub enum PolicyAction {
    /// Allow the skill.
    Allow,
    /// Deny the skill with a reason.
    Deny { reason: String },
    /// Require human approval.
    RequireApproval,
    /// Rate limit the skill.
    RateLimit { max_per_minute: u32 },
}

/// Condition for a policy rule.
#[derive(Debug)]
pub enum Condition {
    /// User must be in the list.
    UserIn(Vec<String>),
    /// User must not be in the list.
    UserNotIn(Vec<String>),
    /// Time must be within window (HH:MM format); not checked.
    TimeWindow { start: String, end: String },
    /// Skill must have this tag; not checked.
    SkillTagIs(String),
    /// Skill must not have this tag; not checked.
    SkillTagNot(String),
    /// The custom context value under `key` must be the string `value`.
    Custom { key: String, value: String },
}

/// Result of policy evaluation.
#[derive(Debug)]
pub struct PolicyDecision {
    /// Whether the skill is allowed.
    pub allowed: bool,
    /// Rules that matched, as `policy:pattern`.
    pub matched_rules: Vec<String>,
    /// Reason if denied.
    pub reason: Option<String>,
    /// Requires approval.
    pub requires_approval: bool,
    /// Rate limit if applicable.
    pub rate_limit: Option<u32>,
}

impl PolicyDecision {
    /// An allowing decision with nothing matched.
    pub fn allow() -> (r: Self)
        ensures
            r.allowed,
            r.matched_rules@.len() == 0,
            r.reason is None,
            !r.requires_approval,
            r.rate_limit is None,
    {
        PolicyDecision {
            allowed: true,
            matched_rules: Vec::new(),
            reason: None,
            requires_approval: false,
            rate_limit: None,
        }
    }

    /// A denying decision with the given reason and nothing matched.
    pub fn deny(reason: String) -> (r: Self)
        ensures
            !r.allowed,
            r.matched_rules@.len() == 0,
            r.reason == Some(reason),
            !r.requires_approval,
            r.rate_limit is None,
    {
        PolicyDecision {
            allowed: false,
            matched_rules: Vec::new(),
            reason: Some(reason),
            requires_approval: false,
            rate_limit: None,
        }
    }
}

/// Whether `pattern`, a text without `\`, is a glob pattern the `glob`
/// crate accepts.
pub uninterp spec fn glob_compiles(pattern: Seq<char>) -> bool;

/// Whether the glob pattern `pattern` matches all of `name` (both texts
/// without `\`).
pub uninterp spec fn glob_matches(pattern: Seq<char>, name: Seq<char>) -> bool;

/// `glob::Pattern::new`, then `glob::Pattern::matches` on the compiled
/// pattern: `None` when the pattern does not compile (`glob_compiles`),
/// otherwise whether it matches the name (`glob_matches`).  Both are
/// stated only for texts without `\`: on Windows the crate takes `\`
/// for a path separator (in `**` components and when comparing
/// characters), elsewhere for an ordinary character, so for such texts
/// the result depends on the platform and is left unsaid.
#[verifier::external_body]
fn glob_match(pattern: &str, name: &str) -> (r: Option<bool>)
    ensures
        !pattern@.contains('\\') ==> (r is Some <==> glob_compiles(pattern@)),
        r matches Some(b) ==> (!pattern@.contains('\\') && !name@.contains('\\') ==> b == glob_matches(pattern@, name@)),
{
    glob::Pattern::new(pattern).ok().map(|g| g.matches(name))
}

/// Whether a skill name matches a rule's pattern: `*` matches every name;
/// a pattern that compiles as a glob matches as a glob; otherwise the
/// pattern must equal the name.
pub open spec fn pattern_matches(pattern: Seq<char>, name: Seq<char>) -> bool {
    if pattern == "*"@ {
        true
    } else if glob_compiles(pattern) {
        glob_matches(pattern, name)
    } else {
        pattern == name
    }
}

/// Neither the pattern nor the name holds `\` (on such texts the glob
/// crate behaves the same on every platform).
pub open spec fn plain_glob(pattern: Seq<char>, name: Seq<char>) -> bool {
    !pattern.contains('\\') && !name.contains('\\')
}

/// Check if a skill name matches a glob pattern.  For a pattern or name
/// holding `\` the answer depends on the platform and is not stated.
pub fn matches_skill_pattern(pattern: &str, skill: &SkillName) -> (b: bool)
    ensures
        plain_glob(pattern@, skill@) ==> b == pattern_matches(pattern@, skill@),
{
    if str_eq(pattern, "*") {
        return true;
    }
    match glob_match(pattern, skill.as_str()) {
        Some(m) => m,
        None => str_eq(pattern, skill.as_str()),
    }
}

/// Whether one condition holds in a context.
pub open spec fn condition_holds(c: Condition, ctx: EnforcementContext) -> bool {
    match c {
        Condition::UserIn(users) => ctx.user_id matches Some(u) && views(users@).contains(u@),
        Condition::UserNotIn(users) => ctx.user_id matches Some(u) ==> !views(users@).contains(u@),
        Condition::TimeWindow { .. } => true,
        Condition::SkillTagIs(_) => true,
        Condition::SkillTagNot(_) => true,
        Condition::Custom { key, value } => ctx.custom.view().dom().contains(key@) && (ctx.custom.view()[key@] matches Some(v) && v@ == value@),
    }
}

/// Whether all conditions hold in a context.
pub open spec fn conditions_hold(cs: Seq<Condition>, ctx: EnforcementContext) -> bool {
    forall|i: int| 0 <= i < cs.len() ==> condition_holds(#[trigger] cs[i], ctx)
}

/// Whether a list of strings holds `s`.
fn list_contains(list: &Vec<String>, s: &String) -> (b: bool)
    ensures
        b == views(list@).contains(s@),
{
    let mut i: usize = 0;
    while i < list.len()
        invariant
            i <= list@.len(),
            forall|j: int| 0 <= j < i ==> list@[j]@ != s@,
        decreases list.len() - i,
    {
        if str_eq(list[i].as_str(), s.as_str()) {
            assert(views(list@)[i as int] == s@);
            return true;
        }
        i += 1;
    }
    proof {
        if views(list@).contains(s@) {
            let j = choose|j: int| 0 <= j < views(list@).len() && views(list@)[j] == s@;
            assert(list@[j]@ == s@);
        }
    }
    false
}

/// The condition `c` shuts out the context's user: it is a `UserNotIn`
/// list that holds the user, or a `UserIn` list that does not (or there
/// is no user).
pub open spec fn shuts_out_user(c: Condition, ctx: EnforcementContext) -> bool {
    match c {
        Condition::UserNotIn(users) => ctx.user_id is Some && views(users@).contains(ctx.user_id->Some_0@),
        Condition::UserIn(users) => ctx.user_id is None || !views(users@).contains(ctx.user_id->Some_0@),
        _ => false,
    }
}

/// Evaluate conditions against context.  A condition that shuts out the
/// user (see `shuts_out_user`) makes them fail.
pub fn evaluate_conditions(conditions: &Vec<Condition>, ctx: &EnforcementContext) -> (b: bool)
    requires
        ctx.wf(),
    ensures
        b == conditions_hold(conditions@, *ctx),
        forall|i: int| 0 <= i < conditions@.len() && shuts_out_user(#[trigger] conditions@[i], *ctx) ==> !b,
{
    proof {
        law_shut_out_user_fails(conditions@, *ctx);
    }
    let mut i: usize = 0;
    while i < conditions.len()
        invariant
            ctx.wf(),
            i <= conditions@.len(),
            forall|j: int| 0 <= j < i ==> condition_holds(#[trigger] conditions@[j], *ctx),
        decreases conditions.len() - i,
    {
        let ok = match &conditions[i] {
            Condition::UserIn(users) => match &ctx.user_id {
                Some(u) => list_contains(users, u),
                None => false,
            },
            Condition::UserNotIn(users) => match &ctx.user_id {
                Some(u) => !list_contains(users, u),
                None => true,
            },
            Condition::TimeWindow { .. } => true,
            Condition::SkillTagIs(_) => true,
            Condition::SkillTagNot(_) => true,
            Condition::Custom { key, value } => match ctx.custom.get(key.as_str()) {
                Some(v) => match v {
                    Some(t) => str_eq(t.as_str(), value.as_str()),
                    None => false,
                },
                None => false,
            },
        };
        if !ok {
            assert(!condition_holds(conditions@[i as int], *ctx));
            return false;
        }
        i += 1;
    }
    true
}


/// A policy's rules, each with the policy's name.
pub open spec fn policy_rules(p: Policy) -> Seq<(Seq<char>, PolicyRule)> {
    Seq::new(p.rules@.len(), |i: int| (p.name@, p.rules@[i]))
}

/// A user listed in a `UserNotIn` condition (or missing from a `UserIn`
/// one) fails it: conditions holding such a condition do not hold, and a
/// rule carrying it applies to no skill, whatever its action.
pub proof fn law_shut_out_user_fails(cs: Seq<Condition>, ctx: EnforcementContext)
    ensures
        forall|i: int| 0 <= i < cs.len() && shuts_out_user(#[trigger] cs[i], ctx) ==> !conditions_hold(cs, ctx),
        forall|rule: PolicyRule, skill: Seq<char>|
            (exists|i: int| 0 <= i < rule.conditions@.len() && shuts_out_user(#[trigger] rule.conditions@[i], ctx))
                ==> !#[trigger] rule_applies(rule, skill, ctx),
{
    assert forall|i: int| 0 <= i < cs.len() && shuts_out_user(#[trigger] cs[i], ctx) implies !conditions_hold(cs, ctx) by {
        assert(!condition_holds(cs[i], ctx));
    }
    assert forall|rule: PolicyRule, skill: Seq<char>|
        (exists|i: int| 0 <= i < rule.conditions@.len() && shuts_out_user(#[trigger] rule.conditions@[i], ctx))
            implies !#[trigger] rule_applies(rule, skill, ctx) by {
        let i = choose|i: int| 0 <= i < rule.conditions@.len() && shuts_out_user(#[trigger] rule.conditions@[i], ctx);
        assert(!condition_holds(rule.conditions@[i], ctx));
    }
}

/// A single policy whose one rule denies under a `UserNotIn` list lets a
/// listed user through untouched: allowed, nothing matched, no reason, no
/// approval, no rate limit.
pub proof fn law_user_not_in_deny_spares_listed_user(p: Policy, skill: Seq<char>, ctx: EnforcementContext)
    requires
        p.rules@.len() == 1,
        p.rules@[0].action is Deny,
        exists|i: int| 0 <= i < p.rules@[0].conditions@.len() && shuts_out_user(#[trigger] p.rules@[0].conditions@[i], ctx),
    ensures
        policy_decision(seq![p], skill, ctx) == (true, Seq::<Seq<char>>::empty(), None::<Seq<char>>, false, None::<u32>),
{
    law_shut_out_user_fails(p.rules@[0].conditions@, ctx);
    let rs = flatten_rules(seq![p]);
    assert(seq![p].drop_first() =~= Seq::<Policy>::empty());
    assert(seq![p][0] == p);
    assert(flatten_rules(Seq::<Policy>::empty()) == Seq::<(Seq<char>, PolicyRule)>::empty());
    assert(rs == policy_rules(p) + flatten_rules(seq![p].drop_first()));
    assert(rs =~= policy_rules(p));
    assert(rs[0] == (p.name@, p.rules@[0]));
    assert(!rule_applies(p.rules@[0], skill, ctx));
    assert(rs.drop_first() =~= Seq::<(Seq<char>, PolicyRule)>::empty());
    let init = (true, Seq::<Seq<char>>::empty(), None::<Seq<char>>, false, None::<u32>);
    assert(evaluate_from(rs.drop_first(), skill, ctx, init) == init);
    assert(evaluate_from(rs, skill, ctx, init) == evaluate_from(rs.drop_first(), skill, ctx, init));
}

/// The rules of all policies in order, each with its policy's name.
pub open spec fn flatten_rules(ps: Seq<Policy>) -> Seq<(Seq<char>, PolicyRule)>
    decreases ps.len(),
{
    if ps.len() == 0 {
        Seq::empty()
    } else {
        policy_rules(ps[0]) + flatten_rules(ps.drop_first())
    }
}

/// How a matched rule is reported: `policy:pattern`.
pub open spec fn rule_label(policy: Seq<char>, rule: PolicyRule) -> Seq<char> {
    policy + ":"@ + rule.skill_pattern@
}

/// Whether a rule applies to a skill in a context.
pub open spec fn rule_applies(rule: PolicyRule, skill: Seq<char>, ctx: EnforcementContext) -> bool {
    pattern_matches(rule.skill_pattern@, skill) && conditions_hold(rule.conditions@, ctx)
}

/// A decision as (allowed, matched rules, reason, requires approval, rate
/// limit).
pub open spec fn decision_view(d: PolicyDecision) -> (bool, Seq<Seq<char>>, Option<Seq<char>>, bool, Option<u32>) {
    (
        d.allowed,
        views(d.matched_rules@),
        match d.reason {
            Some(r) => Some(r@),
            None => None,
        },
        d.requires_approval,
        d.rate_limit,
    )
}

/// The decision after the rules `rs`, from decision `st`: each applying
/// rule is recorded; `Deny` stops with its reason; `RequireApproval` sets
/// the approval flag; `RateLimit` sets the limit (the last one wins).
pub open spec fn evaluate_from(
    rs: Seq<(Seq<char>, PolicyRule)>,
    skill: Seq<char>,
    ctx: EnforcementContext,
    st: (bool, Seq<Seq<char>>, Option<Seq<char>>, bool, Option<u32>),
) -> (bool, Seq<Seq<char>>, Option<Seq<char>>, bool, Option<u32>)
    decreases rs.len(),
{
    if rs.len() == 0 {
        st
    } else {
        let pn = rs[0].0;
        let rule = rs[0].1;
        let rest = rs.drop_first();
        if !rule_applies(rule, skill, ctx) {
            evaluate_from(rest, skill, ctx, st)
        } else {
            let m = st.1.push(rule_label(pn, rule));
            match rule.action {
                PolicyAction::Allow => evaluate_from(rest, skill, ctx, (st.0, m, st.2, st.3, st.4)),
                PolicyAction::Deny { reason } => (false, m, Some(reason@), st.3, st.4),
                PolicyAction::RequireApproval => evaluate_from(
                    rest,
                    skill,
                    ctx,
                    (st.0, m, st.2, true, st.4),
                ),
                PolicyAction::RateLimit { max_per_minute } => evaluate_from(
                    rest,
                    skill,
                    ctx,
                    (st.0, m, st.2, st.3, Some(max_per_minute)),
                ),
            }
        }
    }
}

/// The decision of the policies `ps` on a skill in a context, starting
/// from "allowed, nothing matched".
pub open spec fn policy_decision(ps: Seq<Policy>, skill: Seq<char>, ctx: EnforcementContext) -> (
    bool,
    Seq<Seq<char>>,
    Option<Seq<char>>,
    bool,
    Option<u32>,
) {
    evaluate_from(flatten_rules(ps), skill, ctx, (true, Seq::empty(), None, false, None))
}

/// No rule pattern of the policies `ps`, and not the skill name, holds
/// `\`: the policies then decide the same on every platform.
pub open spec fn plain_rules(ps: Seq<Policy>, skill: Seq<char>) -> bool {
    &&& !skill.contains('\\')
    &&& forall|p: int, r: int|
        0 <= p < ps.len() && 0 <= r < ps[p].rules@.len() ==> !(#[trigger] ps[p].rules@[r]).skill_pattern@.contains('\\')
}

/// Policy engine: evaluates rules against a context.
#[derive(Debug)]
pub struct PolicyEngine {
    policies: Vec<Policy>,
}

impl PolicyEngine {
    /// The policies, in order.
    pub closed spec fn policies_spec(&self) -> Seq<Policy> {
        self.policies@
    }

    /// A policy engine with the given policies.
    pub fn new(policies: Vec<Policy>) -> (r: Self)
        ensures
            r.policies_spec() == policies@,
    {
        PolicyEngine { policies }
    }

    /// An empty policy engine (allows all).
    pub fn allow_all() -> (r: Self)
        ensures
            r.policies_spec().len() == 0,
    {
        PolicyEngine { policies: Vec::new() }
    }

    /// Add a policy (after the others).
    pub fn add_policy(&mut self, policy: Policy)
        ensures
            final(self).policies_spec() == old(self).policies_spec().push(policy),
    {
        self.policies.push(policy);
    }

    /// Get all loaded policies.
    pub fn policies(&self) -> (r: &[Policy])
        ensures
            r@ == self.policies_spec(),
    {
        self.policies.as_slice()
    }

    /// Evaluates whether a skill activation is allowed: the rules of all
    /// policies, in order, as `evaluate_from` says.
    pub fn evaluate(&self, skill: &SkillName, ctx: &EnforcementContext) -> (r: PolicyDecision)
        requires
            ctx.wf(),
        ensures
            plain_rules(self.policies_spec(), skill@) ==> decision_view(r) == policy_decision(
                self.policies_spec(),
                skill@,
                *ctx,
            ),
    {
        let ghost ps = self.policies@;
        let ghost plain = plain_rules(ps, skill@);
        let ghost goal = policy_decision(ps, skill@, *ctx);
        let mut decision = PolicyDecision::allow();
        assert(decision_view(decision) == (true, Seq::<Seq<char>>::empty(), None::<Seq<char>>, false, None::<u32>)) by {
            assert(views(decision.matched_rules@) =~= Seq::<Seq<char>>::empty());
        }
        assert(ps.skip(0) =~= ps);
        let mut p: usize = 0;
        while p < self.policies.len()
            invariant
                ctx.wf(),
                ps == self.policies@,
                goal == policy_decision(ps, skill@, *ctx),
                plain == plain_rules(ps, skill@),
                p <= ps.len(),
                plain ==> goal == evaluate_from(flatten_rules(ps.skip(p as int)), skill@, *ctx, decision_view(decision)),
            decreases self.policies.len() - p,
        {
            let policy = &self.policies[p];
            let ghost pr = policy_rules(ps[p as int]);
            let ghost tail = flatten_rules(ps.skip(p + 1));
            assert(ps.skip(p as int).drop_first() =~= ps.skip(p + 1));
            assert(flatten_rules(ps.skip(p as int)) == pr + tail);
            assert(pr.skip(0) =~= pr);
            let mut r: usize = 0;
            while r < policy.rules.len()
                invariant
                    ctx.wf(),
                    ps == self.policies@,
                    goal == policy_decision(ps, skill@, *ctx),
                    p < ps.len(),
                    *policy == ps[p as int],
                    pr == policy_rules(ps[p as int]),
                    tail == flatten_rules(ps.skip(p + 1)),
                    plain == plain_rules(ps, skill@),
                    r <= pr.len(),
                    plain ==> goal == evaluate_from(pr.skip(r as int) + tail, skill@, *ctx, decision_view(decision)),
                decreases policy.rules.len() - r,
            {
                let rule = &policy.rules[r];
                let ghost seq_now = pr.skip(r as int) + tail;
                assert(seq_now[0] == (policy.name@, *rule));
                assert(seq_now.drop_first() =~= pr.skip(r + 1) + tail);
                let applies = matches_skill_pattern(rule.skill_pattern.as_str(), skill)
                    && evaluate_conditions(&rule.conditions, ctx);
                proof {
                    if plain {
                        assert(ps[p as int].rules@[r as int] == *rule);
                        assert(plain_glob(rule.skill_pattern@, skill@));
                    }
                }
                if applies {
                    let ghost st0 = decision_view(decision);
                    assert(plain ==> rule_applies(*rule, skill@, *ctx));
                    let mut label = owned(policy.name.as_str());
                    push_str(&mut label, ":");
                    push_str(&mut label, rule.skill_pattern.as_str());
                    let ghost m0 = decision.matched_rules@;
                    decision.matched_rules.push(label);
                    assert(views(decision.matched_rules@) =~= views(m0).push(label@));
                    match &rule.action {
                        PolicyAction::Allow => {},
                        PolicyAction::Deny { reason } => {
                            assert(plain ==> goal == (false, st0.1.push(label@), Some(reason@), st0.3, st0.4));
                            decision.allowed = false;
                            decision.reason = Some(reason.clone());
                            return decision;
                        },
                        PolicyAction::RequireApproval => {
                            decision.requires_approval = true;
                        },
                        PolicyAction::RateLimit { max_per_minute } => {
                            decision.rate_limit = Some(*max_per_minute);
                        },
                    }
                }
                r += 1;
            }
            assert(pr.skip(r as int) + tail =~= tail);
            p += 1;
        }
        assert(flatten_rules(ps.skip(p as int)) =~= Seq::<(Seq<char>, PolicyRule)>::empty());
        decision
    }
}


/// A deny rule that applies makes the decision a denial, whatever comes
/// before or after it.
pub proof fn law_applicable_deny_denies(
    rs: Seq<(Seq<char>, PolicyRule)>,
    skill: Seq<char>,
    ctx: EnforcementContext,
    st: (bool, Seq<Seq<char>>, Option<Seq<char>>, bool, Option<u32>),
    i: int,
)
    requires
        0 <= i < rs.len(),
        rule_applies(rs[i].1, skill, ctx),
        rs[i].1.action is Deny,
    ensures
        !evaluate_from(rs, skill, ctx, st).0,
    decreases rs.len(),
{
    if i > 0 {
        let rest = rs.drop_first();
        assert(rest[i - 1] == rs[i]);
        let pn = rs[0].0;
        let rule = rs[0].1;
        if rule_applies(rule, skill, ctx) {
            let m = st.1.push(rule_label(pn, rule));
            match rule.action {
                PolicyAction::Allow => law_applicable_deny_denies(rest, skill, ctx, (st.0, m, st.2, st.3, st.4), i - 1),
                PolicyAction::Deny { .. } => {},
                PolicyAction::RequireApproval => law_applicable_deny_denies(rest, skill, ctx, (st.0, m, st.2, true, st.4), i - 1),
                PolicyAction::RateLimit { max_per_minute } => law_applicable_deny_denies(
                    rest,
                    skill,
                    ctx,
                    (st.0, m, st.2, st.3, Some(max_per_minute)),
                    i - 1,
                ),
            }
        } else {
            law_applicable_deny_denies(rest, skill, ctx, st, i - 1);
        }
    }
}

/// When no rule applies, the decision is left as it was: with no policy
/// matching, a skill is allowed with nothing matched.
pub proof fn law_no_applicable_rule_keeps_decision(
    rs: Seq<(Seq<char>, PolicyRule)>,
    skill: Seq<char>,
    ctx: EnforcementContext,
    st: (bool, Seq<Seq<char>>, Option<Seq<char>>, bool, Option<u32>),
)
    requires
        forall|i: int| 0 <= i < rs.len() ==> !rule_applies(#[trigger] rs[i].1, skill, ctx),
    ensures
        evaluate_from(rs, skill, ctx, st) == st,
    decreases rs.len(),
{
    if rs.len() > 0 {
        let rest = rs.drop_first();
        assert(!rule_applies(rs[0].1, skill, ctx));
        assert forall|i: int| 0 <= i < rest.len() implies !rule_applies(#[trigger] rest[i].1, skill, ctx) by {
            assert(rest[i] == rs[i + 1]);
        }
        law_no_applicable_rule_keeps_decision(rest, skill, ctx, st);
    }
}

/// An engine without policies allows every skill, matching nothing.
pub proof fn law_no_policy_allows(skill: Seq<char>, ctx: EnforcementContext)
    ensures
        policy_decision(Seq::empty(), skill, ctx) == (true, Seq::<Seq<char>>::empty(), None::<Seq<char>>, false, None::<u32>),
{
}

/// Every valid skill name is plain for an engine without policies, so
/// `evaluate` on such an engine (as `allow_all` makes) allows it with no
/// rule matched, no reason, no approval and no rate limit.
pub proof fn law_allow_all_allows_valid_names(e: PolicyEngine, skill: SkillName, ctx: EnforcementContext)
    requires
        e.policies_spec().len() == 0,
        skill.wf(),
    ensures
        plain_rules(e.policies_spec(), skill@),
        policy_decision(e.policies_spec(), skill@, ctx) == (true, Seq::<Seq<char>>::empty(), None::<Seq<char>>, false, None::<u32>),
{
    skill.lemma_plain();
    assert(e.policies_spec() =~= Seq::<Policy>::empty());
}


// ---------------------------------------------------------------------------
// Pipeline
// ---------------------------------------------------------------------------

#[verifier::external_type_specification]
#[verifier::external_body]
pub struct ExSystemTime(std::time::SystemTime);

/// `std::time::SystemTime::now`: the current time; nothing is stated of
/// it.
#[verifier::external_body]
fn now() -> std::time::SystemTime {
    std::time::SystemTime::now()
}

/// Audit entry for skill activation.
#[derive(Debug)]
pub struct ActivationAuditEntry {
    pub timestamp: std::time::SystemTime,
    pub skill: SkillName,
    pub query: String,
    pub user_id: Option<String>,
    pub session_id: Option<String>,
    pub decision: String,
    pub reason: Option<String>,
}

/// Audit entry for enforcement decisions.
#[derive(Debug)]
pub struct EnforcementAuditEntry {
    pub timestamp: std::time::SystemTime,
    pub skill: SkillName,
    pub action: String,
    pub decision: String,
    pub hooks_run: Vec<String>,
    pub policies_matched: Vec<String>,
}

/// Audit log for compliance tracking.
pub trait AuditLog {
    /// Whether the log has been handed the activation entry `e`.  A log
    /// that states nothing of itself may say anything.
    open spec fn has_activation(&self, e: ActivationAuditEntry) -> bool {
        true
    }

    /// Whether the log has been handed the enforcement entry `e`.  A log
    /// that states nothing of itself may say anything.
    open spec fn has_enforcement(&self, e: EnforcementAuditEntry) -> bool {
        true
    }

    /// Log an activation event.
    fn log_activation(&self, entry: ActivationAuditEntry)
        ensures
            self.has_activation(entry),
    ;

    /// Log an enforcement event.
    fn log_enforcement(&self, entry: EnforcementAuditEntry)
        ensures
            self.has_enforcement(entry),
    ;
}

/// `e` is the activation entry for `skill` and `query` in context `ctx`,
/// with decision label `decision` and reason `reason` (its time is not
/// stated).
pub open spec fn activation_is(
    e: ActivationAuditEntry,
    skill: Seq<char>,
    query: Seq<char>,
    ctx: EnforcementContext,
    decision: Seq<char>,
    reason: Option<Seq<char>>,
) -> bool {
    &&& e.skill@ == skill
    &&& e.query@ == query
    &&& e.user_id == ctx.user_id
    &&& e.session_id == ctx.session_id
    &&& e.decision@ == decision
    &&& crate::text::opt_text(e.reason) == reason
}

/// `e` is the enforcement entry for `skill` with action label `action`,
/// decision label `decision`, the hooks `hooks_run` and the policy rules
/// `matched` (its time is not stated).
pub open spec fn enforcement_is(
    e: EnforcementAuditEntry,
    skill: Seq<char>,
    action: Seq<char>,
    decision: Seq<char>,
    hooks_run: Seq<Seq<char>>,
    matched: Seq<Seq<char>>,
) -> bool {
    &&& e.skill@ == skill
    &&& e.action@ == action
    &&& e.decision@ == decision
    &&& views(e.hooks_run@) == hooks_run
    &&& views(e.policies_matched@) == matched
}

/// When there is an audit log, it has been handed an activation entry for
/// `skill`, `query` and `ctx` with decision label `decision` and reason
/// `reason`.
pub open spec fn activation_logged(
    log: Option<Box<dyn AuditLog>>,
    skill: Seq<char>,
    query: Seq<char>,
    ctx: EnforcementContext,
    decision: Seq<char>,
    reason: Option<Seq<char>>,
) -> bool {
    log matches Some(l) ==> exists|e: ActivationAuditEntry|
        activation_is(e, skill, query, ctx, decision, reason) && #[trigger] l.has_activation(e)
}

/// The activation entry for `skill` and `query` in context `ctx`, stamped
/// with the current time.
pub fn activation_entry(
    skill: &SkillName,
    query: &str,
    ctx: &EnforcementContext,
    decision: &str,
    reason: Option<String>,
) -> (e: ActivationAuditEntry)
    ensures
        activation_is(e, skill@, query@, *ctx, decision@, crate::text::opt_text(reason)),
{
    ActivationAuditEntry {
        timestamp: now(),
        skill: skill.clone(),
        query: owned(query),
        user_id: copy_opt(&ctx.user_id),
        session_id: copy_opt(&ctx.session_id),
        decision: owned(decision),
        reason,
    }
}

/// The enforcement entry for `skill`, stamped with the current time.
pub fn enforcement_entry(
    skill: &SkillName,
    action: &str,
    decision: &str,
    hooks_run: &Vec<String>,
    matched: &Vec<String>,
) -> (e: EnforcementAuditEntry)
    ensures
        enforcement_is(e, skill@, action@, decision@, views(hooks_run@), views(matched@)),
{
    EnforcementAuditEntry {
        timestamp: now(),
        skill: skill.clone(),
        action: owned(action),
        decision: owned(decision),
        hooks_run: crate::text::copy_strings(hooks_run),
        policies_matched: crate::text::copy_strings(matched),
    }
}

/// A copy of an optional string.
fn copy_opt(s: &Option<String>) -> (r: Option<String>)
    ensures
        r == *s,
{
    match s {
        Some(t) => Some(t.clone()),
        None => None,
    }
}

/// Complete enforcement pipeline combining hooks, policies and validators.
pub struct EnforcementPipeline {
    before_hooks: Vec<Box<dyn BeforeSkillActivation>>,
    after_hooks: Vec<Box<dyn AfterSkillExecution>>,
    policy_engine: PolicyEngine,
    output_validators: crate::validator::OutputValidator,
    audit_log: Option<Box<dyn AuditLog>>,
}

impl EnforcementPipeline {
    /// The policies.
    pub closed spec fn policies_spec(&self) -> Seq<Policy> {
        self.policy_engine.policies_spec()
    }

    /// The number of before-activation hooks.
    pub closed spec fn before_count(&self) -> nat {
        self.before_hooks@.len()
    }

    /// The number of after-execution hooks.
    pub closed spec fn after_count(&self) -> nat {
        self.after_hooks@.len()
    }

    /// The before-activation hooks, in the order they run.
    pub closed spec fn before_hook_seq(&self) -> Seq<Box<dyn BeforeSkillActivation>> {
        self.before_hooks@
    }

    /// The after-execution hooks, in the order they run.
    pub closed spec fn after_hook_seq(&self) -> Seq<Box<dyn AfterSkillExecution>> {
        self.after_hooks@
    }

    /// The audit log, if set.
    pub closed spec fn audit(&self) -> Option<Box<dyn AuditLog>> {
        self.audit_log
    }

    /// The output validators.
    pub closed spec fn validators(&self) -> crate::validator::OutputValidator {
        self.output_validators
    }

    /// Invariant.
    pub closed spec fn wf(&self) -> bool {
        self.output_validators.wf()
    }

    /// A new pipeline builder.
    pub fn builder() -> (r: EnforcementPipelineBuilder)
        ensures
            r.wf(),
            r.before_len() == 0,
            r.after_len() == 0,
            r.before_seq().len() == 0,
            r.after_seq().len() == 0,
            r.engine() is None,
            r.audit() is None,
            r.validator_set().defaults().len() == 0,
            r.validator_set().skill_validators() == Map::<Seq<char>, Seq<Box<dyn crate::validator::Validator>>>::empty(),
    {
        EnforcementPipelineBuilder::new()
    }

    fn log_activation(
        &self,
        skill: &SkillName,
        query: &str,
        ctx: &EnforcementContext,
        decision: &str,
        reason: Option<String>,
    )
        ensures
            activation_logged(self.audit(), skill@, query@, *ctx, decision@, crate::text::opt_text(reason)),
    {
        let ghost rv = crate::text::opt_text(reason);
        match &self.audit_log {
            Some(log) => {
                let entry = activation_entry(skill, query, ctx, decision, reason);
                let ghost e = entry;
                log.log_activation(entry);
                assert(activation_is(e, skill@, query@, *ctx, decision@, rv) && log.has_activation(e));
            },
            None => {},
        }
    }

    fn log_enforcement(
        &self,
        skill: &SkillName,
        action: &str,
        decision: &str,
        hooks_run: &Vec<String>,
        policy_decision: &PolicyDecision,
    ) {
        match &self.audit_log {
            Some(log) => {
                log.log_enforcement(
                    enforcement_entry(skill, action, decision, hooks_run, &policy_decision.matched_rules),
                );
            },
            None => {},
        }
    }

    /// Pre-activation checks: the policies first (a denial cancels with
    /// the policy's reason, or `Denied by policy`; a required approval
    /// asks for it, for 300 seconds), then the before hooks in order (the
    /// first cancel or approval request is returned; otherwise the last
    /// modification, or allow).
    pub fn check_before(&self, skill: &SkillName, query: &str, ctx: &EnforcementContext) -> (r: Result<HookDecision, crate::error::EnforceError>)
        requires
            self.wf(),
            ctx.wf(),
        ensures
            r is Ok,
            exists|d: (bool, Seq<Seq<char>>, Option<Seq<char>>, bool, Option<u32>)|
                {
                    &&& plain_rules(self.policies_spec(), skill@) ==> d == policy_decision(self.policies_spec(), skill@, *ctx)
                    &&& #[trigger] before_result(d, self.before_hook_seq(), skill@, query@, *ctx, r)
                    &&& before_audit(d, self.audit(), skill@, query@, *ctx, r)
                },
    {
        let mut hooks_run: Vec<String> = Vec::new();
        let pd = self.policy_engine.evaluate(skill, ctx);
        let ghost dv = decision_view(pd);
        if !pd.allowed {
            self.log_activation(skill, query, ctx, "denied", copy_opt(&pd.reason));
            let reason = match pd.reason {
                Some(m) => m,
                None => owned("Denied by policy"),
            };
            let r = Ok(HookDecision::Cancel { reason, suggest_alternative: None });
            assert(before_result(dv, self.before_hook_seq(), skill@, query@, *ctx, r));
            return r;
        }
        if pd.requires_approval {
            self.log_activation(skill, query, ctx, "requires_approval", None);
            let r = Ok(HookDecision::RequireApproval { reason: owned("Policy requires approval"), timeout_secs: 300 });
            assert(before_result(dv, self.before_hook_seq(), skill@, query@, *ctx, r));
            return r;
        }
        let mut decisions: Vec<HookDecision> = Vec::new();
        let mut i: usize = 0;
        while i < self.before_hooks.len()
            invariant
                i <= self.before_hooks@.len(),
                decisions@.len() == i,
                forall|k: int| 0 <= k < decisions@.len() ==> !stops(#[trigger] decisions@[k]),
                forall|k: int| 0 <= k < decisions@.len() ==> self.before_hooks@[k].decides(skill@, query@, *ctx, #[trigger] decisions@[k]),
                dv == decision_view(pd),
                plain_rules(self.policies_spec(), skill@) ==> dv == policy_decision(self.policies_spec(), skill@, *ctx),
                pd.allowed,
                !pd.requires_approval,
            decreases self.before_hooks.len() - i,
        {
            let hook = &self.before_hooks[i];
            hooks_run.push(owned(hook.name()));
            let decision = hook.before_activate(skill, query, ctx);
            let cancelled = decision.is_cancelled();
            let approval = decision.requires_approval();
            let ghost d0 = decisions@;
            decisions.push(decision);
            proof {
                assert forall|k: int| 0 <= k < decisions@.len() - 1 implies !stops(#[trigger] decisions@[k]) by {
                    assert(decisions@[k] == d0[k]);
                }
                assert forall|k: int| 0 <= k < decisions@.len() implies self.before_hooks@[k].decides(skill@, query@, *ctx, #[trigger] decisions@[k]) by {
                    if k < d0.len() {
                        assert(decisions@[k] == d0[k]);
                    }
                }
            }
            if cancelled || approval {
                let label = if cancelled {
                    "cancelled"
                } else {
                    "requires_approval"
                };
                self.log_enforcement(skill, "before_activate", label, &hooks_run, &pd);
                assert(before_run(self.before_hook_seq(), skill@, query@, *ctx, decisions@));
                let ghost ds = decisions@;
                let r = Ok(before_decision(decisions));
                assert(before_result(dv, self.before_hook_seq(), skill@, query@, *ctx, r)) by {
                    assert(before_run(self.before_hook_seq(), skill@, query@, *ctx, ds));
                }
                return r;
            }
            i += 1;
        }
        assert(before_run(self.before_hook_seq(), skill@, query@, *ctx, decisions@));
        self.log_activation(skill, query, ctx, "allowed", None);
        self.log_enforcement(skill, "before_activate", "allowed", &hooks_run, &pd);
        let ghost ds = decisions@;
        let r = Ok(before_decision(decisions));
        assert(before_result(dv, self.before_hook_seq(), skill@, query@, *ctx, r)) by {
            assert(before_run(self.before_hook_seq(), skill@, query@, *ctx, ds));
        }
        r
    }

    /// Post-execution checks: the after hooks in order (a cancel or an
    /// approval request is returned at once; a modification replaces the
    /// output), then the output validators on the output so far (invalid
    /// output fails with all errors joined by `; `).  The result is the
    /// output as modified, or allow when it is unchanged.
    #[verifier::rlimit(80)]
    pub fn check_after(&self, skill: &SkillName, output: &str, ctx: &EnforcementContext) -> (r: Result<HookDecision, crate::error::EnforceError>)
        requires
            self.wf(),
        ensures
            r matches Err(e) ==> (e matches crate::error::EnforceError::ValidationFailed { skill: s, .. } && s@ == skill@),
            exists|ds: Seq<HookDecision>|
                {
                    &&& after_run(self.after_hook_seq(), skill@, output@, *ctx, ds)
                    &&& match after_outcome(output@, ds) {
                        Err(d) => r == Ok::<HookDecision, crate::error::EnforceError>(d),
                        Ok(out) => after_verdict(self.validators().applicable(skill@), skill@, output@, out, r),
                    }
                },
    {
        let mut current = owned(output);
        let mut decisions: Vec<HookDecision> = Vec::new();
        let mut stopped = false;
        let mut i: usize = 0;
        while i < self.after_hooks.len() && !stopped
            invariant
                i <= self.after_hooks@.len(),
                decisions@.len() == i,
                forall|k: int| 0 <= k < decisions@.len() - 1 ==> !stops(#[trigger] decisions@[k]),
                stopped <==> (i > 0 && stops(decisions@.last())),
                !stopped ==> current@ == modified_output(output@, decisions@),
                forall|k: int|
                    0 <= k < decisions@.len() ==> self.after_hooks@[k].decides(
                        skill@,
                        modified_output(output@, decisions@.take(k)),
                        *ctx,
                        #[trigger] decisions@[k],
                    ),
            decreases self.after_hooks.len() - i,
        {
            let hook = &self.after_hooks[i];
            let decision = hook.after_execute(skill, current.as_str(), ctx);
            stopped = decision.is_cancelled() || decision.requires_approval();
            let ghost prev = current@;
            match &decision {
                HookDecision::Modify(m) => {
                    current = m.clone();
                },
                _ => {},
            }
            let ghost d0 = decisions@;
            decisions.push(decision);
            proof {
                assert(decisions@.drop_last() =~= d0);
                assert(decisions@.take(d0.len() as int) =~= d0);
                assert forall|k: int| 0 <= k < decisions@.len() - 1 implies !stops(#[trigger] decisions@[k]) by {
                    assert(decisions@[k] == d0[k]);
                }
                assert forall|k: int|
                    0 <= k < decisions@.len() implies self.after_hooks@[k].decides(
                        skill@,
                        modified_output(output@, decisions@.take(k)),
                        *ctx,
                        #[trigger] decisions@[k],
                    ) by {
                    if k < d0.len() {
                        assert(decisions@[k] == d0[k]);
                        assert(decisions@.take(k) =~= d0.take(k));
                    }
                }
            }
            i += 1;
        }
        let ghost ds = decisions@;
        assert(after_run(self.after_hook_seq(), skill@, output@, *ctx, ds));
        let mut current = match after_decision(output, decisions) {
            Err(d) => {
                assert(after_outcome(output@, ds) == Err::<Seq<char>, HookDecision>(d));
                return Ok(d);
            },
            Ok(o) => o,
        };
        assert(after_outcome(output@, ds) == Ok::<Seq<char>, HookDecision>(current@));
        let validation = self.output_validators.validate(skill, current.as_str());
        let ghost rs = choose|rs: Seq<crate::validator::ValidationResult>|
            crate::validator::results_of(self.output_validators.applicable(skill@), current@, rs)
                && crate::validator::verdict_is(validation, crate::validator::collected_errors(rs));
        match validation {
            crate::validator::ValidationResult::Valid => {},
            crate::validator::ValidationResult::Invalid { errors } => {
                let reason = crate::text::join_with(&errors, "; ");
                assert(views(errors@) == crate::validator::collected_errors(rs));
                let e = crate::error::EnforceError::ValidationFailed { skill: skill.clone(), reason };
                let r = Err(e);
                proof {
                    assert(crate::validator::collected_errors(rs).len() != 0);
                    assert(crate::validator::results_of(self.validators().applicable(skill@), current@, rs));
                    assert(after_verdict(self.validators().applicable(skill@), skill@, output@, current@, r));
                }
                return r;
            },
            crate::validator::ValidationResult::Repaired { output: repaired, .. } => {
                current = repaired;
            },
        }
        assert(crate::validator::collected_errors(rs).len() == 0);
        assert(crate::validator::results_of(self.validators().applicable(skill@), current@, rs));
        let ghost out = current@;
        let r = if !str_eq(current.as_str(), output) {
            Ok(HookDecision::Modify(current))
        } else {
            Ok(HookDecision::Allow)
        };
        assert(after_verdict(self.validators().applicable(skill@), skill@, output@, out, r));
        r
    }
}

/// Builder for `EnforcementPipeline`.
pub struct EnforcementPipelineBuilder {
    before_hooks: Vec<Box<dyn BeforeSkillActivation>>,
    after_hooks: Vec<Box<dyn AfterSkillExecution>>,
    policy_engine: Option<PolicyEngine>,
    output_validators: crate::validator::OutputValidator,
    audit_log: Option<Box<dyn AuditLog>>,
}

impl EnforcementPipelineBuilder {
    /// Invariant.
    pub closed spec fn wf(&self) -> bool {
        self.output_validators.wf()
    }

    /// The number of before-activation hooks.
    pub closed spec fn before_len(&self) -> nat {
        self.before_hooks@.len()
    }

    /// The number of after-execution hooks.
    pub closed spec fn after_len(&self) -> nat {
        self.after_hooks@.len()
    }

    /// The before-activation hooks, in the order they run.
    pub closed spec fn before_seq(&self) -> Seq<Box<dyn BeforeSkillActivation>> {
        self.before_hooks@
    }

    /// The after-execution hooks, in the order they run.
    pub closed spec fn after_seq(&self) -> Seq<Box<dyn AfterSkillExecution>> {
        self.after_hooks@
    }

    /// The audit log, if set.
    pub closed spec fn audit(&self) -> Option<Box<dyn AuditLog>> {
        self.audit_log
    }

    /// The policy engine, if set.
    pub closed spec fn engine(&self) -> Option<PolicyEngine> {
        self.policy_engine
    }

    /// The output validators.
    pub closed spec fn validator_set(&self) -> crate::validator::OutputValidator {
        self.output_validators
    }

    /// A builder with no hook, no policy, no validator and no audit log.
    pub fn new() -> (r: Self)
        ensures
            r.wf(),
            r.before_len() == 0,
            r.after_len() == 0,
            r.before_seq().len() == 0,
            r.after_seq().len() == 0,
            r.engine() is None,
            r.audit() is None,
            r.validator_set().defaults().len() == 0,
            r.validator_set().skill_validators() == Map::<Seq<char>, Seq<Box<dyn crate::validator::Validator>>>::empty(),
    {
        EnforcementPipelineBuilder {
            before_hooks: Vec::new(),
            after_hooks: Vec::new(),
            policy_engine: None,
            output_validators: crate::validator::OutputValidator::new(),
            audit_log: None,
        }
    }

    /// Add a before-activation hook.
    pub fn with_before_hook(self, hook: Box<dyn BeforeSkillActivation>) -> (r: Self)
        requires
            self.wf(),
        ensures
            r.wf(),
            r.before_seq() == self.before_seq().push(hook),
            r.before_len() == self.before_len() + 1,
            r.after_seq() == self.after_seq(),
            r.after_len() == self.after_len(),
            r.engine() == self.engine(),
            r.validator_set() == self.validator_set(),
            r.audit() == self.audit(),
    {
        let mut hooks = self.before_hooks;
        let ghost h0 = hooks@;
        hooks.push(hook);
        proof {
            vstd::seq::axiom_seq_push_len(h0, hook);
        }
        EnforcementPipelineBuilder {
            before_hooks: hooks,
            after_hooks: self.after_hooks,
            policy_engine: self.policy_engine,
            output_validators: self.output_validators,
            audit_log: self.audit_log,
        }
    }

    /// Add an after-execution hook.
    pub fn with_after_hook(self, hook: Box<dyn AfterSkillExecution>) -> (r: Self)
        requires
            self.wf(),
        ensures
            r.wf(),
            r.after_seq() == self.after_seq().push(hook),
            r.after_len() == self.after_len() + 1,
            r.before_seq() == self.before_seq(),
            r.before_len() == self.before_len(),
            r.engine() == self.engine(),
            r.validator_set() == self.validator_set(),
            r.audit() == self.audit(),
    {
        let mut hooks = self.after_hooks;
        let ghost h0 = hooks@;
        hooks.push(hook);
        proof {
            vstd::seq::axiom_seq_push_len(h0, hook);
        }
        EnforcementPipelineBuilder {
            before_hooks: self.before_hooks,
            after_hooks: hooks,
            policy_engine: self.policy_engine,
            output_validators: self.output_validators,
            audit_log: self.audit_log,
        }
    }

    /// Set the policy engine.
    pub fn with_policy_engine(self, engine: PolicyEngine) -> (r: Self)
        requires
            self.wf(),
        ensures
            r.wf(),
            r.before_len() == self.before_len(),
            r.after_len() == self.after_len(),
            r.engine() == Some(engine),
            r.validator_set() == self.validator_set(),
            r.before_seq() == self.before_seq(),
            r.after_seq() == self.after_seq(),
            r.audit() == self.audit(),
    {
        let mut b = self;
        b.policy_engine = Some(engine);
        b
    }

    /// Set the output validators.
    pub fn with_validators(self, validators: crate::validator::OutputValidator) -> (r: Self)
        requires
            validators.wf(),
        ensures
            r.wf(),
            r.before_len() == self.before_len(),
            r.after_len() == self.after_len(),
            r.engine() == self.engine(),
            r.validator_set() == validators,
            r.before_seq() == self.before_seq(),
            r.after_seq() == self.after_seq(),
            r.audit() == self.audit(),
    {
        let mut b = self;
        b.output_validators = validators;
        b
    }

    /// Set the audit log.
    pub fn with_audit_log(self, log: Box<dyn AuditLog>) -> (r: Self)
        requires
            self.wf(),
        ensures
            r.wf(),
            r.audit() == Some(log),
            r.before_seq() == self.before_seq(),
            r.before_len() == self.before_len(),
            r.after_seq() == self.after_seq(),
            r.after_len() == self.after_len(),
            r.engine() == self.engine(),
            r.validator_set() == self.validator_set(),
    {
        let ghost g = log;
        let audit_log = Some(log);
        assert(audit_log == Some(g));
        EnforcementPipelineBuilder {
            before_hooks: self.before_hooks,
            after_hooks: self.after_hooks,
            policy_engine: self.policy_engine,
            output_validators: self.output_validators,
            audit_log,
        }
    }

    /// Build the pipeline (allowing every skill when no policy engine was
    /// set).
    pub fn build(self) -> (r: EnforcementPipeline)
        requires
            self.wf(),
        ensures
            r.wf(),
            r.before_count() == self.before_len(),
            r.after_count() == self.after_len(),
            r.before_hook_seq() == self.before_seq(),
            r.after_hook_seq() == self.after_seq(),
            r.audit() == self.audit(),
            self.engine() is None ==> r.policies_spec().len() == 0,
            self.engine() matches Some(e) ==> r.policies_spec() == e.policies_spec(),
            r.validators() == self.validator_set(),
    {
        let policy_engine = match self.policy_engine {
            Some(e) => e,
            None => PolicyEngine::allow_all(),
        };
        EnforcementPipeline {
            before_hooks: self.before_hooks,
            after_hooks: self.after_hooks,
            policy_engine,
            output_validators: self.output_validators,
            audit_log: self.audit_log,
        }
    }
}

impl Default for EnforcementPipelineBuilder {
    fn default() -> (r: Self)
        ensures
            r.wf(),
    {
        EnforcementPipelineBuilder::new()
    }
}

} // verus!
