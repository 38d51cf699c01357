use std::time::SystemTime;

use skm::learn::{
    record_case, AnalyticsStore, Feedback, InMemoryAnalyticsStore, LatencyFigures, SelectionEvent, SelectionMetrics,
    SkillTestReport, TestExpectation, TestSuite, UsageAnalytics,
};
use skm::schema::SkillName;
use skm::select::Confidence;
use skm::strmap::StrMap;

fn name(s: &str) -> SkillName {
    SkillName::new(s).unwrap()
}

fn event(query: &str, skill: Option<&str>) -> SelectionEvent {
    SelectionEvent {
        timestamp: SystemTime::now(),
        query: query.to_string(),
        selected_skill: skill.map(name),
        score_bits: None,
        confidence: None,
        strategy: None,
        latency_ms: 10,
        feedback: None,
        metadata: StrMap::new(),
    }
}

fn figures() -> LatencyFigures {
    LatencyFigures {
        p50: "10.000".to_string(),
        p95: "10.000".to_string(),
        p99: "10.000".to_string(),
        latency_sum: "10.000".to_string(),
        trigger_rate: "1.0000".to_string(),
        semantic_rate: "0.0000".to_string(),
        llm_rate: "0.0000".to_string(),
        cache_hit_rate: "0.0000".to_string(),
    }
}

#[test]
fn test_expectation_single_match() {
    let exp = TestExpectation::Single(name("test"));
    assert!(exp.matches(Some(&name("test"))));
    assert!(!exp.matches(Some(&name("other"))));
    assert!(!exp.matches(None));
}

#[test]
fn test_expectation_any_of() {
    let exp = TestExpectation::AnyOf(vec![name("a"), name("b")]);
    assert!(exp.matches(Some(&name("a"))));
    assert!(exp.matches(Some(&name("b"))));
    assert!(!exp.matches(Some(&name("c"))));
}

#[test]
fn test_expectation_none() {
    let exp = TestExpectation::NoSkill;
    assert!(exp.matches(None));
    assert!(!exp.matches(Some(&name("test"))));
}

#[test]
fn test_test_suite_new() {
    let suite = TestSuite::new("my-suite");
    assert_eq!(suite.name, "my-suite");
    assert!(suite.cases.is_empty());
}

#[test]
fn record_case_counts_hits_and_misses() {
    let mut per_skill: StrMap<SkillTestReport> = StrMap::new();
    let a = TestExpectation::Single(name("a"));
    assert!(record_case(&mut per_skill, &a, Some(&name("a"))));
    assert!(!record_case(&mut per_skill, &a, Some(&name("b"))));
    assert!(!record_case(&mut per_skill, &a, None));
    let ra = per_skill.get("a").unwrap();
    assert_eq!((ra.total, ra.correct, ra.false_negatives), (3, 1, 2));
    let rb = per_skill.get("b").unwrap();
    assert_eq!((rb.total, rb.correct, rb.false_positives), (0, 0, 1));
    let none = TestExpectation::NoSkill;
    assert!(record_case(&mut per_skill, &none, None));
}

#[test]
fn metrics_test_metrics_record() {
    let mut metrics = SelectionMetrics::new();
    let skill = name("test-skill");
    metrics.record_selection(&skill, "trigger", Confidence::High);
    metrics.record_selection(&skill, "trigger", Confidence::High);
    metrics.record_selection(&skill, "semantic", Confidence::Medium);

    assert_eq!(metrics.total_selections(), 3);
    assert_eq!(*metrics.by_strategy().get("trigger").unwrap_or(&0), 2);
    assert_eq!(*metrics.by_strategy().get("semantic").unwrap_or(&0), 1);
    assert_eq!(*metrics.by_skill().get(skill.as_str()).unwrap_or(&0), 3);
    assert_eq!(metrics.strategy_count("llm"), 0);
}

#[test]
fn metrics_test_metrics_timeout() {
    let mut metrics = SelectionMetrics::new();
    metrics.record_timeout();
    assert_eq!(metrics.total_timeouts(), 1);
}

#[test]
fn metrics_test_metrics_no_match() {
    let mut metrics = SelectionMetrics::new();
    metrics.record_no_match();
    assert_eq!(metrics.total_selections(), 1);
    assert_eq!(metrics.total_no_match(), 1);
    assert!(metrics.by_confidence().contains_key("None"));
}

#[test]
fn metrics_test_metrics_reset() {
    let mut metrics = SelectionMetrics::new();
    let skill = name("test");
    metrics.record_selection(&skill, "trigger", Confidence::High);
    assert_eq!(metrics.total_selections(), 1);
    metrics.reset();
    assert_eq!(metrics.total_selections(), 0);
    assert!(metrics.by_strategy().is_empty());
}

#[test]
fn metrics_test_prometheus_export() {
    let mut metrics = SelectionMetrics::new();
    let skill = name("test");
    metrics.record_selection(&skill, "trigger", Confidence::High);

    let prometheus = metrics.to_prometheus(&figures());

    assert!(prometheus.contains("skm_selections_total 1"));
    assert!(prometheus.contains("skm_selections_by_strategy{strategy=\"trigger\"}"));
    assert!(prometheus.contains("# TYPE skm_selections_total counter"));
    assert!(prometheus.contains("skm_trigger_hit_rate"));
}

#[test]
fn test_cache_metrics() {
    let mut metrics = SelectionMetrics::new();
    metrics.record_cache_hit();
    metrics.record_cache_hit();
    metrics.record_cache_miss();

    let prometheus = metrics.to_prometheus(&figures());

    assert!(prometheus.contains("skm_cache_hits_total 2"));
    assert!(prometheus.contains("skm_cache_misses_total 1"));
    assert!(prometheus.contains("skm_cache_hit_rate 0.0000"));
}

#[test]
fn prometheus_exact_text_of_fresh_metrics() {
    let metrics = SelectionMetrics::new();
    let text = metrics.to_prometheus(&figures());
    let expected = [
        "# HELP skm_selections_total Total number of skill selections",
        "# TYPE skm_selections_total counter",
        "skm_selections_total 0",
        "# HELP skm_timeouts_total Total number of selection timeouts",
        "# TYPE skm_timeouts_total counter",
        "skm_timeouts_total 0",
        "# HELP skm_no_match_total Total selections with no matching skill",
        "# TYPE skm_no_match_total counter",
        "skm_no_match_total 0",
        "# HELP skm_selections_by_confidence Selections by confidence level",
        "# TYPE skm_selections_by_confidence counter",
        "# HELP skm_selections_by_strategy Selections by strategy",
        "# TYPE skm_selections_by_strategy counter",
        "# HELP skm_skill_selections Selections per skill",
        "# TYPE skm_skill_selections counter",
        "# HELP skm_latency_milliseconds Selection latency in milliseconds",
        "# TYPE skm_latency_milliseconds summary",
        "skm_latency_milliseconds{quantile=\"0.5\"} 10.000",
        "skm_latency_milliseconds{quantile=\"0.95\"} 10.000",
        "skm_latency_milliseconds{quantile=\"0.99\"} 10.000",
        "skm_latency_milliseconds_sum 10.000",
        "skm_latency_milliseconds_count 0",
        "# HELP skm_trigger_hit_rate Fraction of queries resolved by trigger matching",
        "# TYPE skm_trigger_hit_rate gauge",
        "skm_trigger_hit_rate 1.0000",
        "# HELP skm_semantic_hit_rate Fraction of queries resolved by semantic search",
        "# TYPE skm_semantic_hit_rate gauge",
        "skm_semantic_hit_rate 0.0000",
        "# HELP skm_llm_fallback_rate Fraction of queries requiring LLM fallback",
        "# TYPE skm_llm_fallback_rate gauge",
        "skm_llm_fallback_rate 0.0000",
        "# HELP skm_cache_hits_total Total cache hits",
        "# TYPE skm_cache_hits_total counter",
        "skm_cache_hits_total 0",
        "# HELP skm_cache_misses_total Total cache misses",
        "# TYPE skm_cache_misses_total counter",
        "skm_cache_misses_total 0",
    ]
    .join("\n");
    assert_eq!(text, expected);
}

#[test]
fn prometheus_lists_most_selected_skills_first() {
    let mut metrics = SelectionMetrics::new();
    metrics.record_selection(&name("low"), "trigger", Confidence::Low);
    metrics.record_selection(&name("high"), "trigger", Confidence::High);
    metrics.record_selection(&name("high"), "trigger", Confidence::High);
    let text = metrics.to_prometheus(&figures());
    let hi = text.find("skm_skill_selections{skill=\"high\"} 2").unwrap();
    let lo = text.find("skm_skill_selections{skill=\"low\"} 1").unwrap();
    assert!(hi < lo);
}

#[test]
fn test_in_memory_store() {
    let mut store = InMemoryAnalyticsStore::new(100);
    let mut e = event("test query", Some("test-skill"));
    e.confidence = Some(Confidence::High);
    e.strategy = Some("trigger".to_string());
    e.score_bits = Some(0.9f32.to_bits());
    store.record(e).unwrap();

    assert_eq!(store.count().unwrap(), 1);

    let events = store.query_recent(10).unwrap();
    assert_eq!(events.len(), 1);
    assert_eq!(events[0].query, "test query");
    assert_eq!(events[0].score_bits, Some(0.9f32.to_bits()));
}

#[test]
fn test_in_memory_store_limit() {
    let mut store = InMemoryAnalyticsStore::new(5);
    for i in 0..10 {
        store.record(event(&format!("query {}", i), None)).unwrap();
    }
    assert_eq!(store.count().unwrap(), 5);
    let recent = store.query_recent(2).unwrap();
    let queries: Vec<&str> = recent.iter().map(|e| e.query.as_str()).collect();
    assert_eq!(queries, vec!["query 8", "query 9"]);
    assert_eq!(store.query_recent(100).unwrap()[0].query, "query 5");
}

#[test]
fn test_query_by_skill() {
    let mut store = InMemoryAnalyticsStore::default();
    for _ in 0..3 {
        store.record(event("query", Some("skill-a"))).unwrap();
    }
    store.record(event("query", Some("skill-b"))).unwrap();

    let events = store.query_by_skill(&name("skill-a"), 10).unwrap();
    assert_eq!(events.len(), 3);
    assert_eq!(store.query_by_skill(&name("skill-a"), 2).unwrap().len(), 2);
    assert_eq!(store.query_by_skill(&name("skill-c"), 10).unwrap().len(), 0);
}

#[test]
fn query_by_skill_keeps_the_latest_matches() {
    let mut store = InMemoryAnalyticsStore::new(10);
    store.record(event("first", Some("a"))).unwrap();
    store.record(event("other", Some("b"))).unwrap();
    store.record(event("second", Some("a"))).unwrap();
    store.record(event("third", Some("a"))).unwrap();
    let got = store.query_by_skill(&name("a"), 2).unwrap();
    let queries: Vec<&str> = got.iter().map(|e| e.query.as_str()).collect();
    assert_eq!(queries, vec!["second", "third"]);
}

#[test]
fn event_copy_keeps_feedback() {
    let mut e = event("q", Some("a"));
    e.feedback = Some(Feedback::Incorrect { expected: Some(name("b")) });
    let c = e.copy();
    match c.feedback {
        Some(Feedback::Incorrect { expected: Some(n) }) => assert_eq!(n.as_str(), "b"),
        _ => panic!("feedback lost"),
    }
}

#[test]
fn test_usage_analytics() {
    let mut analytics = UsageAnalytics::in_memory();
    analytics.record(event("test", None)).unwrap();
    assert_eq!(analytics.count().unwrap(), 1);
    assert_eq!(analytics.recent(5).unwrap().len(), 1);
    assert_eq!(analytics.by_skill(&name("x"), 5).unwrap().len(), 0);
}

#[test]
fn compact_prometheus_export() {
    let mut metrics = SelectionMetrics::new();
    metrics.record_selection(&name("test"), "trigger", Confidence::High);
    let text = metrics.to_prometheus_compact(&figures());
    assert!(text.contains("ase_selections_total 1"));
    assert!(text.contains("ase_selections_by_strategy{strategy=\"trigger\"}"));
    assert_eq!(
        text,
        [
            "ase_selections_total 1",
            "ase_timeouts_total 0",
            "ase_selections_by_confidence{confidence=\"High\"} 1",
            "ase_selections_by_strategy{strategy=\"trigger\"} 1",
            "ase_latency_p50_ms 10.000",
            "ase_latency_p95_ms 10.000",
            "ase_latency_p99_ms 10.000",
        ]
        .join("\n")
    );
}
