//! Command-line arguments of the `skm`, `skx` and `ase` tools, with their
//! default values, and the skill template that `init` writes.
//!
//! Paths are kept as strings; the program turns them into file-system paths.

use vstd::prelude::*;
use crate::text::{chars_of, occurs_at, occurs_at_exec, owned, push_char, push_str, views};

verus! {

/// `["."]`: the current directory as the only path.
fn here() -> (r: Vec<String>)
    ensures
        r@.len() == 1,
        r@[0]@ == "."@,
{
    let mut v: Vec<String> = Vec::new();
    v.push(owned("."));
    v
}

/// Arguments of `list`.
pub struct ListArgs {
    /// Skill directories to scan.
    pub paths: Vec<String>,
    /// Output format (text, json, csv).
    pub format: String,
    /// Show triggers.
    pub triggers: bool,
    /// Show tags.
    pub tags: bool,
    /// Show token estimates.
    pub tokens: bool,
}

impl Default for ListArgs {
    fn default() -> (r: Self)
        ensures
            views(r.paths@) == seq!["."@],
            r.format@ == "text"@,
            !r.triggers && !r.tags && !r.tokens,
    {
        let r = ListArgs { paths: here(), format: owned("text"), triggers: false, tags: false, tokens: false };
        assert(views(r.paths@) =~= seq!["."@]);
        r
    }
}

/// Arguments of `serve`.
pub struct ServeArgs {
    /// Host to bind to.
    pub host: String,
    /// Port to bind to.
    pub port: u16,
    /// Skill directories.
    pub skills: Vec<String>,
    /// Embedding index file.
    pub index: Option<String>,
    /// Enable CORS for all origins.
    pub cors: bool,
}

impl Default for ServeArgs {
    fn default() -> (r: Self)
        ensures
            r.host@ == "127.0.0.1"@,
            r.port == 3000,
            views(r.skills@) == seq!["."@],
            r.index is None,
            !r.cors,
    {
        let r = ServeArgs { host: owned("127.0.0.1"), port: 3000, skills: here(), index: None, cors: false };
        assert(views(r.skills@) =~= seq!["."@]);
        r
    }
}

/// Arguments of `bench`.
pub struct BenchArgs {
    /// Queries to benchmark.
    pub queries: Vec<String>,
    /// File containing queries (one per line).
    pub file: Option<String>,
    /// Skill directories.
    pub skills: Vec<String>,
    /// Number of iterations.
    pub iterations: usize,
    /// Warmup iterations.
    pub warmup: usize,
    /// Output format.
    pub format: String,
}

/// The queries a benchmark runs: the ones given, then the lines of the
/// query file's content (if any), each trimmed, blank ones dropped.
pub open spec fn bench_queries(given: Seq<Seq<char>>, file_content: Option<Seq<char>>) -> Seq<Seq<char>> {
    given + match file_content {
        Some(c) => crate::text::clean_pieces(crate::text::split_spec(c, '\n')),
        None => Seq::empty(),
    }
}

/// Collects the queries of a benchmark (see `bench_queries`); refused
/// when there are none.
pub fn collect_queries(given: Vec<String>, file_content: Option<String>) -> (r: Result<Vec<String>, String>)
    ensures
        bench_queries(views(given@), crate::text::opt_text(file_content)).len() == 0 ==> (r matches Err(m)
            && m@ == "No queries provided. Use positional args or --file."@),
        bench_queries(views(given@), crate::text::opt_text(file_content)).len() > 0 ==> (r matches Ok(v) && views(v@)
            == bench_queries(views(given@), crate::text::opt_text(file_content))),
{
    let mut queries = given;
    match &file_content {
        Some(c) => {
            let lines = crate::text::clean_split(c.as_str(), '\n');
            let mut i: usize = 0;
            let ghost q0 = views(queries@);
            while i < lines.len()
                invariant
                    i <= lines@.len(),
                    views(queries@) == q0 + views(lines@).take(i as int),
                decreases lines.len() - i,
            {
                let ghost qb = views(queries@);
                queries.push(owned(lines[i].as_str()));
                assert(views(queries@) =~= qb.push(lines@[i as int]@));
                assert(views(lines@).take(i + 1) =~= views(lines@).take(i as int).push(views(lines@)[i as int]));
                assert(views(queries@) =~= q0 + views(lines@).take(i + 1));
                i += 1;
            }
            assert(views(lines@).take(i as int) =~= views(lines@));
        },
        None => {
            assert(views(queries@) =~= views(queries@) + Seq::<Seq<char>>::empty());
        },
    }
    if queries.len() == 0 {
        return Err(owned("No queries provided. Use positional args or --file."));
    }
    Ok(queries)
}

impl Default for BenchArgs {
    fn default() -> (r: Self)
        ensures
            r.queries@.len() == 0,
            r.file is None,
            views(r.skills@) == seq!["."@],
            r.iterations == 100,
            r.warmup == 10,
            r.format@ == "text"@,
    {
        let r = BenchArgs {
            queries: Vec::new(),
            file: None,
            skills: here(),
            iterations: 100,
            warmup: 10,
            format: owned("text"),
        };
        assert(views(r.skills@) =~= seq!["."@]);
        r
    }
}

/// Arguments of `export`.
pub struct ExportArgs {
    /// Export format (prometheus, json).
    pub format: String,
    /// Output file (standard output when absent).
    pub output: Option<String>,
}

impl Default for ExportArgs {
    fn default() -> (r: Self)
        ensures
            r.format@ == "prometheus"@,
            r.output is None,
    {
        ExportArgs { format: owned("prometheus"), output: None }
    }
}

/// The formats `export` writes.
#[derive(Debug, Clone, Copy, PartialEq, Eq)]
pub enum ExportFormat {
    /// Prometheus text exposition.
    Prometheus,
    /// A JSON summary.
    Json,
}

/// The message for a format `export` does not know.
pub open spec fn unknown_format_message(format: Seq<char>) -> Seq<char> {
    "Unknown format: "@ + format + ". Use 'prometheus' or 'json'"@
}

/// The export format named `format`: `prometheus` or `json`, else the
/// message naming the unknown format.
pub fn export_format(format: &str) -> (r: Result<ExportFormat, String>)
    ensures
        format@ == "prometheus"@ ==> r == Ok::<ExportFormat, String>(ExportFormat::Prometheus),
        format@ == "json"@ ==> r == Ok::<ExportFormat, String>(ExportFormat::Json),
        format@ != "prometheus"@ && format@ != "json"@ ==> (r matches Err(m) && m@ == unknown_format_message(format@)),
{
    proof {
        reveal_strlit("prometheus");
        reveal_strlit("json");
        assert("json"@.len() != "prometheus"@.len());
    }
    if crate::text::str_eq(format, "prometheus") {
        Ok(ExportFormat::Prometheus)
    } else if crate::text::str_eq(format, "json") {
        Ok(ExportFormat::Json)
    } else {
        let mut m = owned("Unknown format: ");
        push_str(&mut m, format);
        push_str(&mut m, ". Use 'prometheus' or 'json'");
        Err(m)
    }
}

/// Arguments of `index`.
pub struct IndexArgs {
    /// Skill directories.
    pub skills: Vec<String>,
    /// Output index file.
    pub output: String,
    /// Embedding model (bge-m3, minilm).
    pub model: String,
    /// Force rebuild even if the cache is valid.
    pub force: bool,
}

impl Default for IndexArgs {
    fn default() -> (r: Self)
        ensures
            views(r.skills@) == seq!["."@],
            r.output@ == ".skm-index.bin"@,
            r.model@ == "minilm"@,
            !r.force,
    {
        let r = IndexArgs { skills: here(), output: owned(".skm-index.bin"), model: owned("minilm"), force: false };
        assert(views(r.skills@) =~= seq!["."@]);
        r
    }
}

/// Arguments of `init`.
pub struct InitArgs {
    /// Skill name (a directory of this name is created).
    pub name: String,
    /// Skill description.
    pub description: String,
    /// Trigger patterns (comma-separated).
    pub triggers: String,
    /// Tags (comma-separated).
    pub tags: String,
    /// Directory to create the skill in.
    pub output: String,
    /// Overwrite if it exists.
    pub force: bool,
}

impl InitArgs {
    /// Arguments for a skill named `name`, the rest at their defaults.
    pub fn new(name: &str) -> (r: Self)
        ensures
            r.name@ == name@,
            r.description@ == "A new skill"@,
            r.triggers@ == ""@,
            r.tags@ == ""@,
            r.output@ == "."@,
            !r.force,
    {
        InitArgs {
            name: owned(name),
            description: owned("A new skill"),
            triggers: owned(""),
            tags: owned(""),
            output: owned("."),
            force: false,
        }
    }
}

/// The file `init` writes, with `{{name}}`, `{{description}}`,
/// `{{triggers}}` and `{{tags}}` to fill in.
pub const SKILL_TEMPLATE: &'static str = "---\nname: {{name}}\ndescription: {{description}}\nlicense: MIT\nmetadata:\n  triggers: \"{{triggers}}\"\n  tags: \"{{tags}}\"\n---\n\n# {{name}}\n\n## Overview\n\n{{description}}\n\n## Usage\n\n<!-- Add usage instructions here -->\n\n## Examples\n\n<!-- Add examples here -->\n";

/// `str::replace`: every occurrence of `pat` in `s`, from left to right and
/// not overlapping, replaced by `rep`.
pub open spec fn replace_all(s: Seq<char>, pat: Seq<char>, rep: Seq<char>) -> Seq<char>
    recommends
        pat.len() > 0,
    decreases s.len(),
{
    if s.len() == 0 || pat.len() == 0 {
        s
    } else if occurs_at(s, pat, 0) {
        rep + replace_all(s.skip(pat.len() as int), pat, rep)
    } else {
        seq![s[0]] + replace_all(s.skip(1), pat, rep)
    }
}

/// `s` with every occurrence of the non-empty `pat` replaced by `rep`.
pub fn replace(s: &str, pat: &str, rep: &str) -> (r: String)
    requires
        pat@.len() > 0,
    ensures
        r@ == replace_all(s@, pat@, rep@),
{
    let v = chars_of(s);
    let p = chars_of(pat);
    let n = v.len();
    let m = p.len();
    let mut out = String::new();
    let mut i: usize = 0;
    assert(v@.skip(0) =~= v@);
    assert(out@ + replace_all(v@, p@, rep@) =~= replace_all(v@, p@, rep@));
    while i < n
        invariant
            i <= n,
            n == v@.len(),
            m == p@.len(),
            m > 0,
            v@ == s@,
            p@ == pat@,
            out@ + replace_all(v@.skip(i as int), p@, rep@) == replace_all(v@, p@, rep@),
        decreases n - i,
    {
        let ghost rest = v@.skip(i as int);
        if occurs_at_exec(v.as_slice(), p.as_slice(), i) {
            proof {
                assert(rest.subrange(0, m as int) =~= v@.subrange(i as int, i + m));
                assert(rest.skip(m as int) =~= v@.skip(i + m));
            }
            push_str(&mut out, rep);
            i += m;
        } else {
            proof {
                if occurs_at(rest, p@, 0) {
                    assert(rest.subrange(0, m as int) =~= v@.subrange(i as int, i + m));
                }
                assert(rest.skip(1) =~= v@.skip(i + 1));
            }
            push_char(&mut out, v[i]);
            i += 1;
        }
        proof {
            assert(out@ + replace_all(v@.skip(i as int), p@, rep@) =~= replace_all(v@, p@, rep@));
        }
    }
    assert(v@.skip(n as int) =~= Seq::<char>::empty());
    assert(out@ + Seq::<char>::empty() =~= out@);
    out
}

/// The text of the `SKILL.md` that `init` writes: the template with the
/// name, description, triggers and tags filled in, in that order.
pub open spec fn rendered_skill(name: Seq<char>, description: Seq<char>, triggers: Seq<char>, tags: Seq<char>) -> Seq<char> {
    replace_all(
        replace_all(
            replace_all(replace_all(SKILL_TEMPLATE@, "{{name}}"@, name), "{{description}}"@, description),
            "{{triggers}}"@,
            triggers,
        ),
        "{{tags}}"@,
        tags,
    )
}

/// The `SKILL.md` text for the arguments of `init`.
pub fn render_skill(args: &InitArgs) -> (r: String)
    ensures
        r@ == rendered_skill(args.name@, args.description@, args.triggers@, args.tags@),
{
    proof {
        reveal_strlit("{{name}}");
        reveal_strlit("{{description}}");
        reveal_strlit("{{triggers}}");
        reveal_strlit("{{tags}}");
    }
    let a = replace(SKILL_TEMPLATE, "{{name}}", args.name.as_str());
    let b = replace(a.as_str(), "{{description}}", args.description.as_str());
    let c = replace(b.as_str(), "{{triggers}}", args.triggers.as_str());
    replace(c.as_str(), "{{tags}}", args.tags.as_str())
}

/// Arguments of `stats`.
pub struct StatsArgs {
    /// Analytics database path.
    pub db: Option<String>,
    /// Time range (such as "1d", "7d", "30d", "all").
    pub range: String,
    /// Filter by skill.
    pub skill: Option<String>,
    /// Output format.
    pub format: String,
    /// Show a per-skill breakdown.
    pub breakdown: bool,
}

impl Default for StatsArgs {
    fn default() -> (r: Self)
        ensures
            r.db is None,
            r.range@ == "7d"@,
            r.skill is None,
            r.format@ == "text"@,
            !r.breakdown,
    {
        StatsArgs { db: None, range: owned("7d"), skill: None, format: owned("text"), breakdown: false }
    }
}

/// Arguments of `validate`.
pub struct ValidateArgs {
    /// Paths to validate (directories or SKILL.md files).
    pub paths: Vec<String>,
    /// Strict mode (fail on warnings).
    pub strict: bool,
    /// Output format.
    pub format: String,
}

impl Default for ValidateArgs {
    fn default() -> (r: Self)
        ensures
            r.paths@.len() == 0,
            !r.strict,
            r.format@ == "text"@,
    {
        ValidateArgs { paths: Vec::new(), strict: false, format: owned("text") }
    }
}

/// Arguments of `select`.
pub struct SelectArgs {
    /// Query to select a skill for.
    pub query: String,
    /// Skill directories.
    pub skills: Vec<String>,
    /// Top K results to return.
    pub top_k: usize,
    /// Show a detailed breakdown.
    pub verbose: bool,
    /// Output format.
    pub format: String,
}

impl SelectArgs {
    /// Arguments for `query`, the rest at their defaults.
    pub fn new(query: &str) -> (r: Self)
        ensures
            r.query@ == query@,
            views(r.skills@) == seq!["."@],
            r.top_k == 5,
            !r.verbose,
            r.format@ == "text"@,
    {
        let r = SelectArgs { query: owned(query), skills: here(), top_k: 5, verbose: false, format: owned("text") };
        assert(views(r.skills@) =~= seq!["."@]);
        r
    }
}

/// Arguments of `test`.
pub struct TestArgs {
    /// Test suite file (YAML).
    pub suite: String,
    /// Skill directories.
    pub skills: Vec<String>,
    /// Verbose output (show each test).
    pub verbose: bool,
    /// Output format.
    pub format: String,
}

impl TestArgs {
    /// Arguments for the suite file `suite`, the rest at their defaults.
    pub fn new(suite: &str) -> (r: Self)
        ensures
            r.suite@ == suite@,
            views(r.skills@) == seq!["."@],
            !r.verbose,
            r.format@ == "text"@,
    {
        let r = TestArgs { suite: owned(suite), skills: here(), verbose: false, format: owned("text") };
        assert(views(r.skills@) =~= seq!["."@]);
        r
    }
}

} // verus!
