use std::cell::RefCell;
use std::rc::Rc;

use skm::enforce::{
    after_decision,
    before_decision, matches_skill_pattern, ActivationAuditEntry, AfterSkillExecution, AuditLog, BeforeSkillActivation, Condition,
    EnforcementAuditEntry, EnforcementContext, EnforcementPipeline, HookDecision, Policy, PolicyAction, PolicyEngine,
    PolicyRule,
};
use skm::error::EnforceError;
use skm::schema::SkillName;
use skm::validator::{LengthValidator, OutputValidator};

fn test_policy() -> Policy {
    Policy {
        name: "test-policy".to_string(),
        rules: vec![
            PolicyRule {
                skill_pattern: "admin-*".to_string(),
                action: PolicyAction::Deny { reason: "Admin skills are restricted".to_string() },
                conditions: vec![],
            },
            PolicyRule { skill_pattern: "dangerous-*".to_string(), action: PolicyAction::RequireApproval, conditions: vec![] },
            PolicyRule {
                skill_pattern: "api-*".to_string(),
                action: PolicyAction::RateLimit { max_per_minute: 10 },
                conditions: vec![],
            },
        ],
    }
}

#[test]
fn test_policy_allow() {
    let engine = PolicyEngine::new(vec![test_policy()]);
    let ctx = EnforcementContext::new();
    let skill = SkillName::new("safe-skill").unwrap();
    let decision = engine.evaluate(&skill, &ctx);
    assert!(decision.allowed);
    assert!(decision.reason.is_none());
}

#[test]
fn test_policy_deny() {
    let engine = PolicyEngine::new(vec![test_policy()]);
    let ctx = EnforcementContext::new();
    let skill = SkillName::new("admin-delete").unwrap();
    let decision = engine.evaluate(&skill, &ctx);
    assert!(!decision.allowed);
    assert!(decision.reason.is_some());
    assert_eq!(decision.matched_rules, vec!["test-policy:admin-*".to_string()]);
}

#[test]
fn test_policy_require_approval() {
    let engine = PolicyEngine::new(vec![test_policy()]);
    let ctx = EnforcementContext::new();
    let skill = SkillName::new("dangerous-action").unwrap();
    let decision = engine.evaluate(&skill, &ctx);
    assert!(decision.allowed);
    assert!(decision.requires_approval);
}

#[test]
fn test_policy_rate_limit() {
    let engine = PolicyEngine::new(vec![test_policy()]);
    let ctx = EnforcementContext::new();
    let skill = SkillName::new("api-call").unwrap();
    let decision = engine.evaluate(&skill, &ctx);
    assert!(decision.allowed);
    assert_eq!(decision.rate_limit, Some(10));
}

#[test]
fn test_condition_user_in() {
    let policy = Policy {
        name: "user-policy".to_string(),
        rules: vec![PolicyRule {
            skill_pattern: "*".to_string(),
            action: PolicyAction::Allow,
            conditions: vec![Condition::UserIn(vec!["admin".to_string()])],
        }],
    };
    let engine = PolicyEngine::new(vec![policy]);
    let ctx = EnforcementContext::new();
    let skill = SkillName::new("test").unwrap();
    let decision = engine.evaluate(&skill, &ctx);
    assert!(decision.matched_rules.is_empty());
    let ctx = EnforcementContext::new().with_user("admin");
    let decision = engine.evaluate(&skill, &ctx);
    assert!(!decision.matched_rules.is_empty());
}

#[test]
fn custom_condition_compares_strings() {
    let policy = Policy {
        name: "p".to_string(),
        rules: vec![PolicyRule {
            skill_pattern: "*".to_string(),
            action: PolicyAction::Deny { reason: "no".to_string() },
            conditions: vec![Condition::Custom { key: "env".to_string(), value: "prod".to_string() }],
        }],
    };
    let engine = PolicyEngine::new(vec![policy]);
    let skill = SkillName::new("x").unwrap();
    let prod = EnforcementContext::new().with_custom("env", Some("prod".to_string()));
    let dev = EnforcementContext::new().with_custom("env", Some("dev".to_string()));
    let num = EnforcementContext::new().with_custom("env", None);
    assert!(!engine.evaluate(&skill, &prod).allowed);
    assert!(engine.evaluate(&skill, &dev).allowed);
    assert!(engine.evaluate(&skill, &num).allowed);
}

#[test]
fn test_allow_all() {
    let engine = PolicyEngine::allow_all();
    let ctx = EnforcementContext::new();
    let skill = SkillName::new("anything").unwrap();
    let decision = engine.evaluate(&skill, &ctx);
    assert!(decision.allowed);
    assert!(engine.policies().is_empty());
}

#[test]
fn test_glob_pattern() {
    assert!(matches_skill_pattern("*", &SkillName::new("anything").unwrap()));
    assert!(matches_skill_pattern("test-*", &SkillName::new("test-skill").unwrap()));
    assert!(!matches_skill_pattern("test-*", &SkillName::new("other-skill").unwrap()));
    assert!(matches_skill_pattern("*-skill", &SkillName::new("test-skill").unwrap()));
    // an invalid glob falls back to equality
    assert!(!matches_skill_pattern("a[", &SkillName::new("a").unwrap()));
}

#[test]
fn test_hook_decision_allow() {
    let decision = HookDecision::allow();
    assert!(decision.is_allowed());
    assert!(!decision.is_cancelled());
}

#[test]
fn test_hook_decision_cancel() {
    let decision = HookDecision::cancel("Not allowed");
    assert!(!decision.is_allowed());
    assert!(decision.is_cancelled());
}

#[test]
fn test_hook_decision_require_approval() {
    let decision = HookDecision::require_approval("Needs review", 300);
    assert!(!decision.is_allowed());
    assert!(decision.requires_approval());
}

#[test]
fn test_enforcement_context() {
    let ctx = EnforcementContext::new()
        .with_user("user123")
        .with_session("session456")
        .with_custom("key", Some("value".to_string()));
    assert_eq!(ctx.user_id, Some("user123".to_string()));
    assert_eq!(ctx.session_id, Some("session456".to_string()));
    assert!(ctx.custom.contains_key("key"));
}

struct DenyHook;
impl BeforeSkillActivation for DenyHook {
    fn before_activate(&self, _: &SkillName, _: &str, _: &EnforcementContext) -> HookDecision {
        HookDecision::cancel("Denied by hook")
    }
    fn name(&self) -> &str {
        "deny-hook"
    }
}

struct RedactHook;
impl AfterSkillExecution for RedactHook {
    fn after_execute(&self, _: &SkillName, output: &str, _: &EnforcementContext) -> HookDecision {
        if output.contains("secret") {
            HookDecision::modify(&output.replace("secret", "[REDACTED]"))
        } else {
            HookDecision::allow()
        }
    }
}

#[derive(Clone, Default)]
struct SharedLog {
    activations: Rc<RefCell<Vec<String>>>,
    enforcements: Rc<RefCell<Vec<String>>>,
}

impl AuditLog for SharedLog {
    fn log_activation(&self, entry: ActivationAuditEntry) {
        self.activations.borrow_mut().push(entry.decision);
    }
    fn log_enforcement(&self, entry: EnforcementAuditEntry) {
        self.enforcements.borrow_mut().push(entry.decision);
    }
}

#[test]
fn test_pipeline_allow() {
    let pipeline = EnforcementPipeline::builder().build();
    let ctx = EnforcementContext::new();
    let skill = SkillName::new("test").unwrap();
    assert!(matches!(pipeline.check_before(&skill, "q", &ctx), Ok(HookDecision::Allow)));
}

#[test]
fn test_pipeline_deny_by_hook() {
    let pipeline = EnforcementPipeline::builder().with_before_hook(Box::new(DenyHook)).build();
    let ctx = EnforcementContext::new();
    let skill = SkillName::new("test").unwrap();
    let decision = pipeline.check_before(&skill, "q", &ctx).unwrap();
    assert!(decision.is_cancelled());
}

#[test]
fn test_pipeline_deny_by_policy() {
    let pipeline = EnforcementPipeline::builder().with_policy_engine(PolicyEngine::new(vec![test_policy()])).build();
    let ctx = EnforcementContext::new();
    let skill = SkillName::new("admin-delete").unwrap();
    match pipeline.check_before(&skill, "q", &ctx).unwrap() {
        HookDecision::Cancel { reason, .. } => assert_eq!(reason, "Admin skills are restricted"),
        other => panic!("unexpected {:?}", other),
    }
    let skill = SkillName::new("dangerous-x").unwrap();
    assert!(pipeline.check_before(&skill, "q", &ctx).unwrap().requires_approval());
}

#[test]
fn test_pipeline_after_modify() {
    let pipeline = EnforcementPipeline::builder().with_after_hook(Box::new(RedactHook)).build();
    let ctx = EnforcementContext::new();
    let skill = SkillName::new("test").unwrap();
    match pipeline.check_after(&skill, "this is secret data", &ctx).unwrap() {
        HookDecision::Modify(out) => assert_eq!(out, "this is [REDACTED] data"),
        other => panic!("unexpected {:?}", other),
    }
    assert!(matches!(pipeline.check_after(&skill, "plain", &ctx), Ok(HookDecision::Allow)));
}

#[test]
fn pipeline_validation_failure() {
    let mut validators = OutputValidator::new();
    validators.add_default(Box::new(LengthValidator::range(2, 3)));
    let pipeline = EnforcementPipeline::builder().with_validators(validators).build();
    let ctx = EnforcementContext::new();
    let skill = SkillName::new("v").unwrap();
    match pipeline.check_after(&skill, "x", &ctx) {
        Err(EnforceError::ValidationFailed { skill: s, reason }) => {
            assert_eq!(s.as_str(), "v");
            assert_eq!(reason, "Output too short: 1 < 2 chars");
        }
        other => panic!("unexpected {:?}", other),
    }
}

#[test]
fn test_pipeline_audit_log() {
    let log = SharedLog::default();
    let pipeline = EnforcementPipeline::builder().with_audit_log(Box::new(log.clone())).build();
    let ctx = EnforcementContext::new().with_user("u");
    let skill = SkillName::new("test").unwrap();
    pipeline.check_before(&skill, "query", &ctx).unwrap();
    assert_eq!(log.activations.borrow().as_slice(), &["allowed".to_string()]);
    assert_eq!(log.enforcements.borrow().as_slice(), &["allowed".to_string()]);
}

struct TestBeforeHook;
impl BeforeSkillActivation for TestBeforeHook {
    fn before_activate(&self, skill: &SkillName, _query: &str, _ctx: &EnforcementContext) -> HookDecision {
        if skill.as_str() == "dangerous-skill" {
            HookDecision::cancel("This skill is dangerous")
        } else {
            HookDecision::allow()
        }
    }
    fn name(&self) -> &str {
        "test-before-hook"
    }
}

struct ModifyHook(&'static str);
impl BeforeSkillActivation for ModifyHook {
    fn before_activate(&self, _: &SkillName, _: &str, _: &EnforcementContext) -> HookDecision {
        HookDecision::modify(self.0)
    }
}

#[test]
fn test_before_hook() {
    let hook = TestBeforeHook;
    let ctx = EnforcementContext::new();
    let safe = SkillName::new("safe-skill").unwrap();
    let dangerous = SkillName::new("dangerous-skill").unwrap();
    assert!(hook.before_activate(&safe, "query", &ctx).is_allowed());
    assert!(hook.before_activate(&dangerous, "query", &ctx).is_cancelled());
}

#[test]
fn test_after_hook() {
    let hook = RedactHook;
    let ctx = EnforcementContext::new();
    let skill = SkillName::new("test").unwrap();
    assert!(hook.after_execute(&skill, "normal output", &ctx).is_allowed());
    match hook.after_execute(&skill, "contains secret data", &ctx) {
        HookDecision::Modify(modified) => {
            assert!(modified.contains("[REDACTED]"));
            assert!(!modified.contains("secret"));
        }
        _ => panic!("Expected Modify decision"),
    }
}

#[test]
fn before_decision_keeps_last_non_allow() {
    assert!(before_decision(vec![]).is_allowed());
    match before_decision(vec![HookDecision::modify("a"), HookDecision::allow(), HookDecision::modify("b"), HookDecision::allow()]) {
        HookDecision::Modify(m) => assert_eq!(m, "b"),
        _ => panic!("expected the last modification"),
    }
    assert!(before_decision(vec![HookDecision::modify("a"), HookDecision::cancel("no")]).is_cancelled());
}

#[test]
fn before_hooks_last_modification_wins_and_cancel_stops() {
    let pipeline = EnforcementPipeline::builder()
        .with_before_hook(Box::new(ModifyHook("first")))
        .with_before_hook(Box::new(TestBeforeHook))
        .with_before_hook(Box::new(ModifyHook("second")))
        .build();
    let ctx = EnforcementContext::new();
    let safe = SkillName::new("safe-skill").unwrap();
    match pipeline.check_before(&safe, "q", &ctx).unwrap() {
        HookDecision::Modify(m) => assert_eq!(m, "second"),
        _ => panic!("expected the last modification"),
    }
    let dangerous = SkillName::new("dangerous-skill").unwrap();
    assert!(pipeline.check_before(&dangerous, "q", &ctx).unwrap().is_cancelled());
}

struct QuietHook;
impl BeforeSkillActivation for QuietHook {
    fn before_activate(&self, _: &SkillName, _: &str, _: &EnforcementContext) -> HookDecision {
        HookDecision::Allow
    }
}
impl AfterSkillExecution for QuietHook {
    fn after_execute(&self, _: &SkillName, _: &str, _: &EnforcementContext) -> HookDecision {
        HookDecision::Allow
    }
}

#[test]
fn hooks_without_a_name_have_the_default_names() {
    assert_eq!(BeforeSkillActivation::name(&QuietHook), "unnamed-before-hook");
    assert_eq!(AfterSkillExecution::name(&QuietHook), "unnamed-after-hook");
}

#[test]
fn after_decisions_fold_to_output_or_first_stop() {
    let r = after_decision("a", vec![HookDecision::modify("b"), HookDecision::Allow]);
    assert_eq!(r.ok().unwrap(), "b");
    let r = after_decision("a", vec![HookDecision::Allow]);
    assert_eq!(r.ok().unwrap(), "a");
    let r = after_decision("a", vec![HookDecision::modify("b"), HookDecision::cancel("no"), HookDecision::modify("c")]);
    assert!(r.unwrap_err().is_cancelled());
}
