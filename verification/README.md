# skm

Agent skills: `SKILL.md` files with YAML frontmatter, a registry of them,
trigger-based selection, progressive disclosure into a token budget,
policy and hook enforcement, output validation, and the bookkeeping of
tests and metrics.

## Layout

- `src/` — the library, verified with Verus. Each module states its
  behaviour in `requires`/`ensures` over spec functions.  Some properties
  that relate several operations are stated as public proof functions
  named `law_*`; others stand in the `ensures` of the functions they are
  about.
  - `text`, `strmap`, `rank` — strings as character sequences, an
    insertion-ordered map keyed by strings, stable top-k ranking.
  - `schema`, `parser`, `registry`, `watcher` — skills, their parsing,
    the registry with refresh and watch-event processing.
  - `select`, `llm`, `embed` — trigger matching, few-shot examples, the
    cascade's stopping rule, model prompts and answer checking, the
    integer side of embedding providers.
  - `disclose`, `enforce`, `validator` — the context budget, policies and
    hooks, output validators.
  - `learn`, `cli`, `error` — test harness accounting, metrics and their
    text export, analytics stores, command-line arguments, errors.
- `app/` — the command-line program: file and network I/O, the
  asynchronous strategies and cascade, and everything computed with
  floating point (scores, embeddings, latency histograms, rates).
- `tests/` — tests of the library.
