use skm::cli::{
    export_format, render_skill, replace, BenchArgs, ExportArgs, ExportFormat, IndexArgs, InitArgs, ListArgs, SelectArgs,
    ServeArgs, StatsArgs, TestArgs, ValidateArgs,
};

#[test]
fn argument_defaults() {
    let l = ListArgs::default();
    assert_eq!(l.paths, vec![".".to_string()]);
    assert_eq!(l.format, "text");
    assert!(!l.triggers && !l.tags && !l.tokens);

    let s = ServeArgs::default();
    assert_eq!((s.host.as_str(), s.port, s.cors), ("127.0.0.1", 3000, false));
    assert_eq!(s.skills, vec![".".to_string()]);
    assert!(s.index.is_none());

    let b = BenchArgs::default();
    assert!(b.queries.is_empty() && b.file.is_none());
    assert_eq!((b.iterations, b.warmup, b.format.as_str()), (100, 10, "text"));

    let e = ExportArgs::default();
    assert_eq!(e.format, "prometheus");
    assert!(e.output.is_none());

    let i = IndexArgs::default();
    assert_eq!((i.output.as_str(), i.model.as_str(), i.force), (".skm-index.bin", "minilm", false));

    let st = StatsArgs::default();
    assert_eq!((st.range.as_str(), st.format.as_str(), st.breakdown), ("7d", "text", false));

    let v = ValidateArgs::default();
    assert!(v.paths.is_empty() && !v.strict);

    let sel = SelectArgs::new("find pdf");
    assert_eq!((sel.query.as_str(), sel.top_k, sel.verbose), ("find pdf", 5, false));

    let t = TestArgs::new("suite.yaml");
    assert_eq!((t.suite.as_str(), t.skills.len(), t.format.as_str()), ("suite.yaml", 1, "text"));
}

#[test]
fn export_formats() {
    assert_eq!(export_format("prometheus"), Ok(ExportFormat::Prometheus));
    assert_eq!(export_format("json"), Ok(ExportFormat::Json));
    assert_eq!(export_format("xml"), Err("Unknown format: xml. Use 'prometheus' or 'json'".to_string()));
}

#[test]
fn replace_matches_str_replace() {
    for (s, p, r) in [
        ("aaa", "aa", "b"),
        ("{{x}}{{x}}", "{{x}}", "y"),
        ("no match here", "zz", "q"),
        ("", "a", "b"),
        ("abcabc", "c", ""),
    ] {
        assert_eq!(replace(s, p, r), s.replace(p, r));
    }
}

#[test]
fn init_renders_template() {
    let mut args = InitArgs::new("my-skill");
    args.description = "Does things".to_string();
    args.triggers = "do,things".to_string();
    let text = render_skill(&args);
    assert!(text.starts_with("---\nname: my-skill\ndescription: Does things\nlicense: MIT\n"));
    assert!(text.contains("  triggers: \"do,things\"\n  tags: \"\"\n"));
    assert!(text.contains("# my-skill\n\n## Overview\n\nDoes things\n"));
    assert!(!text.contains("{{"));
    let d = InitArgs::new("x");
    assert_eq!(d.description, "A new skill");
    assert_eq!(d.output, ".");
}

#[test]
fn bench_queries_come_from_arguments_then_file_lines() {
    let q = skm::cli::collect_queries(vec!["a".to_string()], Some("  b \n\n c\r\n".to_string())).unwrap();
    assert_eq!(q, vec!["a".to_string(), "b".to_string(), "c".to_string()]);
    let e = skm::cli::collect_queries(Vec::new(), Some("\n  \n".to_string())).unwrap_err();
    assert_eq!(e, "No queries provided. Use positional args or --file.");
}
