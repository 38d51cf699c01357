//! Error types of the library, each with the message it displays.
//!
//! Every error has a `message` specification and a `to_string` method that
//! builds exactly that text.

use vstd::prelude::*;

use crate::schema::SkillName;
use crate::text::{decimal, decimal_string, owned, push_char, push_str};

verus! {

broadcast use vstd::string::group_string_axioms;

/// Validation errors for skill content.
#[derive(Debug)]
pub enum ValidationError {
    /// Skill name is empty.
    EmptyName,
    /// Skill name is too long.
    NameTooLong { len: usize },
    /// Skill name contains an invalid character.
    InvalidNameChar { ch: char, pos: usize },
    /// Description is empty.
    EmptyDescription,
    /// Description is too long.
    DescriptionTooLong { len: usize },
    /// Required field missing.
    MissingField { field: String },
    /// Invalid field value.
    InvalidFieldValue { field: String, reason: String },
}

impl ValidationError {
    /// The displayed message.
    pub open spec fn message(&self) -> Seq<char> {
        match self {
            ValidationError::EmptyName => "Skill name cannot be empty"@,
            ValidationError::NameTooLong { len } => "Skill name too long: "@ + decimal(
                *len as nat,
            ) + " chars (max 64)"@,
            ValidationError::InvalidNameChar { ch, pos } => "Skill name contains invalid character '"@
                + seq![*ch] + "' at position "@ + decimal(*pos as nat)
                + " (allowed: a-zA-Z0-9._-)"@,
            ValidationError::EmptyDescription => "Skill description cannot be empty"@,
            ValidationError::DescriptionTooLong { len } => "Description too long: "@ + decimal(
                *len as nat,
            ) + " chars (max 2000)"@,
            ValidationError::MissingField { field } => "Required field missing: "@ + field@,
            ValidationError::InvalidFieldValue { field, reason } => "Invalid value for field '"@
                + field@ + "': "@ + reason@,
        }
    }

    /// The displayed message.
    pub fn to_string(&self) -> (r: String)
        ensures
            r@ == self.message(),
    {
        match self {
            ValidationError::EmptyName => owned("Skill name cannot be empty"),
            ValidationError::NameTooLong { len } => {
                let mut s = owned("Skill name too long: ");
                let d = decimal_string(*len as u64);
                push_str(&mut s, d.as_str());
                push_str(&mut s, " chars (max 64)");
                s
            },
            ValidationError::InvalidNameChar { ch, pos } => {
                let mut s = owned("Skill name contains invalid character '");
                push_char(&mut s, *ch);
                push_str(&mut s, "' at position ");
                let d = decimal_string(*pos as u64);
                push_str(&mut s, d.as_str());
                push_str(&mut s, " (allowed: a-zA-Z0-9._-)");
                s
            },
            ValidationError::EmptyDescription => owned("Skill description cannot be empty"),
            ValidationError::DescriptionTooLong { len } => {
                let mut s = owned("Description too long: ");
                let d = decimal_string(*len as u64);
                push_str(&mut s, d.as_str());
                push_str(&mut s, " chars (max 2000)");
                s
            },
            ValidationError::MissingField { field } => {
                let mut s = owned("Required field missing: ");
                push_str(&mut s, field.as_str());
                s
            },
            ValidationError::InvalidFieldValue { field, reason } => {
                let mut s = owned("Invalid value for field '");
                push_str(&mut s, field.as_str());
                push_str(&mut s, "': ");
                push_str(&mut s, reason.as_str());
                s
            },
        }
    }
}

/// Parse errors for SKILL.md files.  Paths are kept as text.
#[derive(Debug)]
pub enum ParseError {
    /// File not found.
    FileNotFound(String),
    /// IO error while reading the file (with the I/O error's message).
    Io { path: String, source: String },
    /// Missing frontmatter.
    MissingFrontmatter { path: String },
    /// Invalid frontmatter.
    InvalidFrontmatter { path: String, reason: String },
    /// Missing required field in frontmatter.
    MissingRequiredField { path: String, field: String },
    /// Validation error.
    Validation { path: String, source: ValidationError },
}

impl ParseError {
    /// The path the error is about.
    pub open spec fn path_spec(&self) -> Seq<char> {
        match self {
            ParseError::FileNotFound(p) => p@,
            ParseError::Io { path, .. } => path@,
            ParseError::MissingFrontmatter { path } => path@,
            ParseError::InvalidFrontmatter { path, .. } => path@,
            ParseError::MissingRequiredField { path, .. } => path@,
            ParseError::Validation { path, .. } => path@,
        }
    }

    /// The path associated with this error (every variant has one).
    pub fn path(&self) -> (r: Option<&String>)
        ensures
            r matches Some(p) && p@ == self.path_spec(),
    {
        match self {
            ParseError::FileNotFound(p) => Some(p),
            ParseError::Io { path, .. } => Some(path),
            ParseError::MissingFrontmatter { path } => Some(path),
            ParseError::InvalidFrontmatter { path, .. } => Some(path),
            ParseError::MissingRequiredField { path, .. } => Some(path),
            ParseError::Validation { path, .. } => Some(path),
        }
    }

    /// The displayed message.
    pub open spec fn message(&self) -> Seq<char> {
        match self {
            ParseError::FileNotFound(p) => "File not found: "@ + p@,
            ParseError::Io { path, source } => "IO error reading "@ + path@ + ": "@ + source@,
            ParseError::MissingFrontmatter { path } => "Missing YAML frontmatter in "@ + path@,
            ParseError::InvalidFrontmatter { path, reason } => "Invalid YAML frontmatter in "@
                + path@ + ": "@ + reason@,
            ParseError::MissingRequiredField { path, field } => "Missing required field '"@
                + field@ + "' in "@ + path@,
            ParseError::Validation { path, source } => "Validation error in "@ + path@ + ": "@
                + source.message(),
        }
    }

    /// The displayed message.
    pub fn to_string(&self) -> (r: String)
        ensures
            r@ == self.message(),
    {
        match self {
            ParseError::FileNotFound(p) => {
                let mut s = owned("File not found: ");
                push_str(&mut s, p.as_str());
                s
            },
            ParseError::Io { path, source } => {
                let mut s = owned("IO error reading ");
                push_str(&mut s, path.as_str());
                push_str(&mut s, ": ");
                push_str(&mut s, source.as_str());
                s
            },
            ParseError::MissingFrontmatter { path } => {
                let mut s = owned("Missing YAML frontmatter in ");
                push_str(&mut s, path.as_str());
                s
            },
            ParseError::InvalidFrontmatter { path, reason } => {
                let mut s = owned("Invalid YAML frontmatter in ");
                push_str(&mut s, path.as_str());
                push_str(&mut s, ": ");
                push_str(&mut s, reason.as_str());
                s
            },
            ParseError::MissingRequiredField { path, field } => {
                let mut s = owned("Missing required field '");
                push_str(&mut s, field.as_str());
                push_str(&mut s, "' in ");
                push_str(&mut s, path.as_str());
                s
            },
            ParseError::Validation { path, source } => {
                let mut s = owned("Validation error in ");
                push_str(&mut s, path.as_str());
                push_str(&mut s, ": ");
                let m = source.to_string();
                push_str(&mut s, m.as_str());
                s
            },
        }
    }
}

/// Core errors for skill operations.  I/O and watcher failures carry the
/// failing operation's message.
#[derive(Debug)]
pub enum CoreError {
    /// Invalid skill name.
    InvalidName(String),
    /// Parse error in a SKILL.md file.
    Parse { path: String, reason: String },
    /// Validation error.
    Validation(ValidationError),
    /// Skill not found.
    NotFound(SkillName),
    /// IO error.
    Io(String),
    /// Duplicate skill name.
    Duplicate(SkillName),
    /// Watcher error.
    Watcher(String),
}

impl CoreError {
    /// The displayed message.
    pub open spec fn message(&self) -> Seq<char> {
        match self {
            CoreError::InvalidName(n) => "Invalid skill name: "@ + n@,
            CoreError::Parse { path, reason } => "Parse error in "@ + path@ + ": "@ + reason@,
            CoreError::Validation(v) => "Validation error: "@ + v.message(),
            CoreError::NotFound(n) => "Skill not found: "@ + n@,
            CoreError::Io(e) => "IO error: "@ + e@,
            CoreError::Duplicate(n) => "Duplicate skill name: "@ + n@,
            CoreError::Watcher(e) => "Filesystem watcher error: "@ + e@,
        }
    }

    /// The displayed message.
    pub fn to_string(&self) -> (r: String)
        ensures
            r@ == self.message(),
    {
        let (head, tail): (&str, String) = match self {
            CoreError::InvalidName(n) => ("Invalid skill name: ", n.clone()),
            CoreError::Parse { path, reason } => {
                let mut t = path.clone();
                push_str(&mut t, ": ");
                push_str(&mut t, reason.as_str());
                ("Parse error in ", t)
            },
            CoreError::Validation(v) => ("Validation error: ", v.to_string()),
            CoreError::NotFound(n) => ("Skill not found: ", n.to_string()),
            CoreError::Io(e) => ("IO error: ", e.clone()),
            CoreError::Duplicate(n) => ("Duplicate skill name: ", n.to_string()),
            CoreError::Watcher(e) => ("Filesystem watcher error: ", e.clone()),
        };
        let mut s = owned(head);
        push_str(&mut s, tail.as_str());
        s
    }

    /// The error a parse error becomes: its path and its message.
    pub fn from_parse(err: ParseError) -> (r: CoreError)
        ensures
            r == (CoreError::Parse { path: r->path, reason: r->reason }),
            r->path@ == err.path_spec(),
            r->reason@ == err.message(),
    {
        let reason = err.to_string();
        let path = match err.path() {
            Some(p) => p.clone(),
            None => String::new(),
        };
        CoreError::Parse { path, reason }
    }
}

/// Errors from embedding operations.
#[derive(Debug)]
pub enum EmbedError {
    /// Model initialization failed.
    ModelInit(String),
    /// Model not found or could not be loaded.
    ModelNotFound(String),
    /// Embedding computation failed.
    Embedding(String),
    /// Dimension mismatch between embeddings.
    DimensionMismatch { expected: usize, actual: usize },
    /// Index serialization failed.
    Serialization(String),
    /// IO error.
    Io(String),
    /// API error (remote providers).
    Api { status: u16, message: String },
    /// Rate limit exceeded.
    RateLimit { retry_after_secs: u64 },
    /// Invalid API key.
    InvalidApiKey,
    /// Empty input.
    EmptyInput,
    /// Batch too large.
    BatchTooLarge { size: usize, max: usize },
}

impl EmbedError {
    /// Retryable: a rate limit, or an API error with status 500 or above.
    pub open spec fn retryable(&self) -> bool {
        match self {
            EmbedError::RateLimit { .. } => true,
            EmbedError::Api { status, .. } => *status >= 500,
            _ => false,
        }
    }

    /// Whether the operation may succeed when retried.
    pub fn is_retryable(&self) -> (r: bool)
        ensures
            r == self.retryable(),
    {
        match self {
            EmbedError::RateLimit { .. } => true,
            EmbedError::Api { status, .. } => *status >= 500,
            _ => false,
        }
    }

    /// The displayed message.
    pub open spec fn message(&self) -> Seq<char> {
        match self {
            EmbedError::ModelInit(m) => "Failed to initialize embedding model: "@ + m@,
            EmbedError::ModelNotFound(m) => "Model not found: "@ + m@,
            EmbedError::Embedding(m) => "Embedding failed: "@ + m@,
            EmbedError::DimensionMismatch { expected, actual } => "Dimension mismatch: expected "@
                + decimal(*expected as nat) + ", got "@ + decimal(*actual as nat),
            EmbedError::Serialization(m) => "Index serialization error: "@ + m@,
            EmbedError::Io(m) => "IO error: "@ + m@,
            EmbedError::Api { status, message } => "API error: "@ + decimal(*status as nat)
                + " - "@ + message@,
            EmbedError::RateLimit { retry_after_secs } => "Rate limit exceeded, retry after "@
                + decimal(*retry_after_secs as nat) + " seconds"@,
            EmbedError::InvalidApiKey => "Invalid API key"@,
            EmbedError::EmptyInput => "Cannot embed empty text"@,
            EmbedError::BatchTooLarge { size, max } => "Batch size "@ + decimal(*size as nat)
                + " exceeds maximum "@ + decimal(*max as nat),
        }
    }

    /// The displayed message.
    pub fn to_string(&self) -> (r: String)
        ensures
            r@ == self.message(),
    {
        match self {
            EmbedError::ModelInit(m) => {
                let mut s = owned("Failed to initialize embedding model: ");
                push_str(&mut s, m.as_str());
                s
            },
            EmbedError::ModelNotFound(m) => {
                let mut s = owned("Model not found: ");
                push_str(&mut s, m.as_str());
                s
            },
            EmbedError::Embedding(m) => {
                let mut s = owned("Embedding failed: ");
                push_str(&mut s, m.as_str());
                s
            },
            EmbedError::DimensionMismatch { expected, actual } => {
                let mut s = owned("Dimension mismatch: expected ");
                let a = decimal_string(*expected as u64);
                push_str(&mut s, a.as_str());
                push_str(&mut s, ", got ");
                let b = decimal_string(*actual as u64);
                push_str(&mut s, b.as_str());
                s
            },
            EmbedError::Serialization(m) => {
                let mut s = owned("Index serialization error: ");
                push_str(&mut s, m.as_str());
                s
            },
            EmbedError::Io(m) => {
                let mut s = owned("IO error: ");
                push_str(&mut s, m.as_str());
                s
            },
            EmbedError::Api { status, message } => {
                let mut s = owned("API error: ");
                let a = decimal_string(*status as u64);
                push_str(&mut s, a.as_str());
                push_str(&mut s, " - ");
                push_str(&mut s, message.as_str());
                s
            },
            EmbedError::RateLimit { retry_after_secs } => {
                let mut s = owned("Rate limit exceeded, retry after ");
                let a = decimal_string(*retry_after_secs);
                push_str(&mut s, a.as_str());
                push_str(&mut s, " seconds");
                s
            },
            EmbedError::InvalidApiKey => owned("Invalid API key"),
            EmbedError::EmptyInput => owned("Cannot embed empty text"),
            EmbedError::BatchTooLarge { size, max } => {
                let mut s = owned("Batch size ");
                let a = decimal_string(*size as u64);
                push_str(&mut s, a.as_str());
                push_str(&mut s, " exceeds maximum ");
                let b = decimal_string(*max as u64);
                push_str(&mut s, b.as_str());
                s
            },
        }
    }
}

/// Errors from disclosure operations.
#[derive(Debug)]
pub enum DiscloseError {
    /// Skill not found.
    SkillNotFound(SkillName),
    /// Token budget exceeded.
    BudgetExceeded { needed: usize, available: usize },
    /// Skill not activated.
    NotActivated(SkillName),
    /// Reference file not found.
    ReferenceNotFound { skill: SkillName, file: String },
    /// Core error.
    Core(CoreError),
    /// IO error.
    Io(String),
}

impl DiscloseError {
    /// The displayed message.
    pub open spec fn message(&self) -> Seq<char> {
        match self {
            DiscloseError::SkillNotFound(n) => "Skill not found: "@ + n@,
            DiscloseError::BudgetExceeded { needed, available } => "Token budget exceeded: need "@
                + decimal(*needed as nat) + ", have "@ + decimal(*available as nat),
            DiscloseError::NotActivated(n) => "Skill not activated: "@ + n@,
            DiscloseError::ReferenceNotFound { skill, file } => "Reference file not found: "@
                + skill@ + "/"@ + file@,
            DiscloseError::Core(e) => "Core error: "@ + e.message(),
            DiscloseError::Io(e) => "IO error: "@ + e@,
        }
    }

    /// The displayed message.
    pub fn to_string(&self) -> (r: String)
        ensures
            r@ == self.message(),
    {
        let (head, tail): (&str, String) = match self {
            DiscloseError::SkillNotFound(n) => ("Skill not found: ", n.to_string()),
            DiscloseError::BudgetExceeded { needed, available } => {
                let mut t = decimal_string(*needed as u64);
                push_str(&mut t, ", have ");
                let b = decimal_string(*available as u64);
                push_str(&mut t, b.as_str());
                ("Token budget exceeded: need ", t)
            },
            DiscloseError::NotActivated(n) => ("Skill not activated: ", n.to_string()),
            DiscloseError::ReferenceNotFound { skill, file } => {
                let mut t = skill.to_string();
                push_str(&mut t, "/");
                push_str(&mut t, file.as_str());
                ("Reference file not found: ", t)
            },
            DiscloseError::Core(e) => ("Core error: ", e.to_string()),
            DiscloseError::Io(e) => ("IO error: ", e.clone()),
        };
        let mut s = owned(head);
        push_str(&mut s, tail.as_str());
        s
    }
}

/// LLM-specific errors.
#[derive(Debug)]
pub enum LlmError {
    /// API request failed.
    Api(String),
    /// Parse error in the LLM response.
    ParseError(String),
    /// Timeout.
    Timeout,
    /// Rate limit.
    RateLimit,
}

impl LlmError {
    /// The displayed message.
    pub open spec fn message(&self) -> Seq<char> {
        match self {
            LlmError::Api(m) => "LLM API request failed: "@ + m@,
            LlmError::ParseError(m) => "Failed to parse LLM response: "@ + m@,
            LlmError::Timeout => "LLM request timed out"@,
            LlmError::RateLimit => "LLM rate limit exceeded"@,
        }
    }

    /// The displayed message.
    pub fn to_string(&self) -> (r: String)
        ensures
            r@ == self.message(),
    {
        match self {
            LlmError::Api(m) => {
                let mut s = owned("LLM API request failed: ");
                push_str(&mut s, m.as_str());
                s
            },
            LlmError::ParseError(m) => {
                let mut s = owned("Failed to parse LLM response: ");
                push_str(&mut s, m.as_str());
                s
            },
            LlmError::Timeout => owned("LLM request timed out"),
            LlmError::RateLimit => owned("LLM rate limit exceeded"),
        }
    }
}

/// Errors from selection operations.  A regex error carries its message.
#[derive(Debug)]
pub enum SelectError {
    /// Strategy initialization failed.
    StrategyInit(String),
    /// Selection failed.
    Selection(String),
    /// Timeout exceeded.
    Timeout(String),
    /// Embedding error.
    Embedding(EmbedError),
    /// Core error.
    Core(CoreError),
    /// LLM error.
    Llm(LlmError),
    /// Regex error.
    Regex(String),
}

impl SelectError {
    /// The displayed message.
    pub open spec fn message(&self) -> Seq<char> {
        match self {
            SelectError::StrategyInit(m) => "Strategy initialization failed: "@ + m@,
            SelectError::Selection(m) => "Selection failed: "@ + m@,
            SelectError::Timeout(m) => "Selection timeout exceeded: "@ + m@,
            SelectError::Embedding(e) => "Embedding error: "@ + e.message(),
            SelectError::Core(e) => "Core error: "@ + e.message(),
            SelectError::Llm(e) => "LLM error: "@ + e.message(),
            SelectError::Regex(m) => "Regex error: "@ + m@,
        }
    }

    /// The displayed message.
    pub fn to_string(&self) -> (r: String)
        ensures
            r@ == self.message(),
    {
        let (head, tail): (&str, String) = match self {
            SelectError::StrategyInit(m) => ("Strategy initialization failed: ", m.clone()),
            SelectError::Selection(m) => ("Selection failed: ", m.clone()),
            SelectError::Timeout(m) => ("Selection timeout exceeded: ", m.clone()),
            SelectError::Embedding(e) => ("Embedding error: ", e.to_string()),
            SelectError::Core(e) => ("Core error: ", e.to_string()),
            SelectError::Llm(e) => ("LLM error: ", e.to_string()),
            SelectError::Regex(m) => ("Regex error: ", m.clone()),
        };
        let mut s = owned(head);
        push_str(&mut s, tail.as_str());
        s
    }
}

/// Errors from enforcement operations.  I/O, YAML and JSON failures carry
/// their message.
#[derive(Debug)]
pub enum EnforceError {
    /// Policy file not found.
    PolicyNotFound(String),
    /// Invalid policy format.
    InvalidPolicy(String),
    /// Hook execution failed.
    HookFailed(String),
    /// Validation failed.
    ValidationFailed { skill: SkillName, reason: String },
    /// Core error.
    Core(CoreError),
    /// IO error.
    Io(String),
    /// YAML parse error.
    Yaml(String),
    /// JSON parse error.
    Json(String),
}

impl EnforceError {
    /// The displayed message.
    pub open spec fn message(&self) -> Seq<char> {
        match self {
            EnforceError::PolicyNotFound(m) => "Policy file not found: "@ + m@,
            EnforceError::InvalidPolicy(m) => "Invalid policy format: "@ + m@,
            EnforceError::HookFailed(m) => "Hook execution failed: "@ + m@,
            EnforceError::ValidationFailed { skill, reason } => "Validation failed for "@ + skill@
                + ": "@ + reason@,
            EnforceError::Core(e) => "Core error: "@ + e.message(),
            EnforceError::Io(m) => "IO error: "@ + m@,
            EnforceError::Yaml(m) => "YAML error: "@ + m@,
            EnforceError::Json(m) => "JSON error: "@ + m@,
        }
    }

    /// The displayed message.
    pub fn to_string(&self) -> (r: String)
        ensures
            r@ == self.message(),
    {
        let (head, tail): (&str, String) = match self {
            EnforceError::PolicyNotFound(m) => ("Policy file not found: ", m.clone()),
            EnforceError::InvalidPolicy(m) => ("Invalid policy format: ", m.clone()),
            EnforceError::HookFailed(m) => ("Hook execution failed: ", m.clone()),
            EnforceError::ValidationFailed { skill, reason } => {
                let mut t = skill.to_string();
                push_str(&mut t, ": ");
                push_str(&mut t, reason.as_str());
                ("Validation failed for ", t)
            },
            EnforceError::Core(e) => ("Core error: ", e.to_string()),
            EnforceError::Io(m) => ("IO error: ", m.clone()),
            EnforceError::Yaml(m) => ("YAML error: ", m.clone()),
            EnforceError::Json(m) => ("JSON error: ", m.clone()),
        };
        let mut s = owned(head);
        push_str(&mut s, tail.as_str());
        s
    }
}

/// Errors from learning operations.  I/O, YAML, JSON and SQLite failures
/// carry their message.
#[derive(Debug)]
pub enum LearnError {
    /// Test harness error.
    Harness(String),
    /// Metrics error.
    Metrics(String),
    /// Optimizer error.
    Optimizer(String),
    /// Analytics error.
    Analytics(String),
    /// Core error.
    Core(CoreError),
    /// Select error.
    Select(SelectError),
    /// IO error.
    Io(String),
    /// YAML error.
    Yaml(String),
    /// JSON error.
    Json(String),
    /// SQLite error.
    Sqlite(String),
}

impl LearnError {
    /// The displayed message.
    pub open spec fn message(&self) -> Seq<char> {
        match self {
            LearnError::Harness(m) => "Test harness error: "@ + m@,
            LearnError::Metrics(m) => "Metrics error: "@ + m@,
            LearnError::Optimizer(m) => "Optimizer error: "@ + m@,
            LearnError::Analytics(m) => "Analytics error: "@ + m@,
            LearnError::Core(e) => "Core error: "@ + e.message(),
            LearnError::Select(e) => "Selection error: "@ + e.message(),
            LearnError::Io(m) => "IO error: "@ + m@,
            LearnError::Yaml(m) => "YAML error: "@ + m@,
            LearnError::Json(m) => "JSON error: "@ + m@,
            LearnError::Sqlite(m) => "SQLite error: "@ + m@,
        }
    }

    /// The displayed message.
    pub fn to_string(&self) -> (r: String)
        ensures
            r@ == self.message(),
    {
        let (head, tail): (&str, String) = match self {
            LearnError::Harness(m) => ("Test harness error: ", m.clone()),
            LearnError::Metrics(m) => ("Metrics error: ", m.clone()),
            LearnError::Optimizer(m) => ("Optimizer error: ", m.clone()),
            LearnError::Analytics(m) => ("Analytics error: ", m.clone()),
            LearnError::Core(e) => ("Core error: ", e.to_string()),
            LearnError::Select(e) => ("Selection error: ", e.to_string()),
            LearnError::Io(m) => ("IO error: ", m.clone()),
            LearnError::Yaml(m) => ("YAML error: ", m.clone()),
            LearnError::Json(m) => ("JSON error: ", m.clone()),
            LearnError::Sqlite(m) => ("SQLite error: ", m.clone()),
        };
        let mut s = owned(head);
        push_str(&mut s, tail.as_str());
        s
    }
}

} // verus!
