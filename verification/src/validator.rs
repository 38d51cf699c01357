//! Validation of the output of a skill: by length, by regular expression,
//! by JSON type, per skill and by default.

use vstd::prelude::*;
use vstd::string::StringSliceAdditionalSpecFns;

use crate::pattern::{regex_matches, CompiledPattern};
use crate::schema::SkillName;
use crate::strmap::StrMap;
use crate::text::{copy_strings, decimal, decimal_string, owned, push_str, views};

verus! {

broadcast use vstd::string::group_string_axioms;

#[verifier::external_type_specification]
#[verifier::external_body]
pub struct ExJsonError(serde_json::Error);

/// Result of validation.
#[derive(Debug)]
pub enum ValidationResult {
    /// Output is valid.
    Valid,
    /// Output is invalid.
    Invalid { errors: Vec<String> },
    /// Output was repaired (auto-fixed).
    Repaired { output: String, warnings: Vec<String> },
}

impl ValidationResult {
    /// Valid or repaired.
    pub open spec fn is_ok_spec(&self) -> bool {
        !(*self is Invalid)
    }

    /// The errors of an invalid result (none otherwise).
    pub open spec fn errors_spec(&self) -> Seq<Seq<char>> {
        match self {
            ValidationResult::Invalid { errors } => views(errors@),
            _ => Seq::empty(),
        }
    }

    /// Check if the result is valid or repaired.
    pub fn is_ok(&self) -> (b: bool)
        ensures
            b == self.is_ok_spec(),
    {
        match self {
            ValidationResult::Invalid { .. } => false,
            _ => true,
        }
    }

    /// Check if the result is invalid.
    pub fn is_invalid(&self) -> (b: bool)
        ensures
            b == !self.is_ok_spec(),
    {
        match self {
            ValidationResult::Invalid { .. } => true,
            _ => false,
        }
    }

    /// Get errors if invalid.
    pub fn errors(&self) -> (r: Option<&[String]>)
        ensures
            self is Invalid <==> r is Some,
            r matches Some(e) ==> views(e@) == self.errors_spec(),
    {
        match self {
            ValidationResult::Invalid { errors } => Some(errors.as_slice()),
            _ => None,
        }
    }
}

/// `r` is invalid with exactly the errors `errors`, or valid when there
/// are none.
pub open spec fn verdict_is(r: ValidationResult, errors: Seq<Seq<char>>) -> bool {
    if errors.len() == 0 {
        r is Valid
    } else {
        r is Invalid && r.errors_spec() == errors
    }
}

/// Appending a longer list is appending, then pushing.
proof fn lemma_append_push<A>(d: Seq<A>, l: Seq<A>, x: A)
    ensures
        d + l.push(x) == (d + l).push(x),
{
    assert(d + l.push(x) =~= (d + l).push(x));
}

/// Pushing adds one element and keeps the others.
proof fn lemma_push_facts<A>(s: Seq<A>, x: A)
    ensures
        s.push(x).len() == s.len() + 1,
        s.push(x).drop_last() == s,
{
    assert(s.push(x).drop_last() =~= s);
}

/// Appending one element is pushing it.
proof fn lemma_append_single<A>(d: Seq<A>, x: A)
    ensures
        d + seq![x] == d.push(x),
{
    assert(d + seq![x] =~= d.push(x));
}

/// Validator of skill output.
pub trait Validator {
    /// Whether `r` is a result this validator may give for `output`.
    spec fn gives(&self, output: Seq<char>, r: ValidationResult) -> bool;

    /// Validate output.
    fn validate(&self, output: &str) -> (r: ValidationResult)
        ensures
            self.gives(output@, r),
    ;

    /// Validator name; `unnamed-validator` unless the validator names itself.
    fn name(&self) -> (r: &str)
        default_ensures
            r@ == "unnamed-validator"@,
    {
        proof {
            reveal_strlit("unnamed-validator");
        }
        "unnamed-validator"
    }
}

// ---------------------------------------------------------------------------
// Length
// ---------------------------------------------------------------------------

/// The errors of a length check on a text of `len` bytes.
pub open spec fn length_errors(min: Option<usize>, max: Option<usize>, len: nat) -> Seq<Seq<char>> {
    let too_short = match min {
        Some(m) => if len < m {
            seq!["Output too short: "@ + decimal(len) + " < "@ + decimal(m as nat) + " chars"@]
        } else {
            Seq::empty()
        },
        None => Seq::empty(),
    };
    let too_long = match max {
        Some(m) => if len > m {
            seq!["Output too long: "@ + decimal(len) + " > "@ + decimal(m as nat) + " chars"@]
        } else {
            Seq::empty()
        },
        None => Seq::empty(),
    };
    too_short + too_long
}

/// Length validator (lengths in bytes).
#[derive(Debug)]
pub struct LengthValidator {
    min: Option<usize>,
    max: Option<usize>,
    name: String,
}

impl LengthValidator {
    /// The lower bound.
    pub closed spec fn min_spec(&self) -> Option<usize> {
        self.min
    }

    /// The upper bound.
    pub closed spec fn max_spec(&self) -> Option<usize> {
        self.max
    }

    /// The name.
    pub closed spec fn name_spec(&self) -> Seq<char> {
        self.name@
    }

    /// Create a new length validator, named `length`.
    pub fn new(min: Option<usize>, max: Option<usize>) -> (r: Self)
        ensures
            r.min_spec() == min,
            r.max_spec() == max,
            r.name_spec() == "length"@,
    {
        LengthValidator { min, max, name: owned("length") }
    }

    /// Create a validator with minimum length.
    pub fn min(min: usize) -> (r: Self)
        ensures
            r.min_spec() == Some(min),
            r.max_spec() == None::<usize>,
            r.name_spec() == "length"@,
    {
        LengthValidator::new(Some(min), None)
    }

    /// Create a validator with maximum length.
    pub fn max(max: usize) -> (r: Self)
        ensures
            r.min_spec() == None::<usize>,
            r.max_spec() == Some(max),
            r.name_spec() == "length"@,
    {
        LengthValidator::new(None, Some(max))
    }

    /// Create a validator with both min and max.
    pub fn range(min: usize, max: usize) -> (r: Self)
        ensures
            r.min_spec() == Some(min),
            r.max_spec() == Some(max),
            r.name_spec() == "length"@,
    {
        LengthValidator::new(Some(min), Some(max))
    }

    /// Set the validator name.
    pub fn with_name(self, name: &str) -> (r: Self)
        ensures
            r.min_spec() == self.min_spec(),
            r.max_spec() == self.max_spec(),
            r.name_spec() == name@,
    {
        LengthValidator { min: self.min, max: self.max, name: owned(name) }
    }
}

impl Validator for LengthValidator {
    open spec fn gives(&self, output: Seq<char>, r: ValidationResult) -> bool {
        verdict_is(
            r,
            length_errors(self.min_spec(), self.max_spec(), vstd::utf8::encode_utf8(output).len()),
        )
    }

    fn validate(&self, output: &str) -> (r: ValidationResult) {
        let len = output.as_bytes().len();
        let ghost all = length_errors(self.min, self.max, len as nat);
        let mut errors: Vec<String> = Vec::new();
        let mut short_count: usize = 0;
        if let Some(min) = self.min {
            if len < min {
                let mut m = owned("Output too short: ");
                push_str(&mut m, decimal_string(len as u64).as_str());
                push_str(&mut m, " < ");
                push_str(&mut m, decimal_string(min as u64).as_str());
                push_str(&mut m, " chars");
                errors.push(m);
                short_count = 1;
            }
        }
        assert(views(errors@) =~= all.take(short_count as int));
        if let Some(max) = self.max {
            if len > max {
                let mut m = owned("Output too long: ");
                push_str(&mut m, decimal_string(len as u64).as_str());
                push_str(&mut m, " > ");
                push_str(&mut m, decimal_string(max as u64).as_str());
                push_str(&mut m, " chars");
                let ghost e0 = errors@;
                errors.push(m);
                assert(views(errors@) =~= views(e0).push(m@));
            }
        }
        assert(views(errors@) =~= all);
        if errors.len() == 0 {
            ValidationResult::Valid
        } else {
            ValidationResult::Invalid { errors }
        }
    }

    fn name(&self) -> (r: &str)
        ensures
            r@ == self.name_spec(),
    {
        self.name.as_str()
    }
}


// ---------------------------------------------------------------------------
// Regular expressions
// ---------------------------------------------------------------------------

/// Regex validator: the output must, or must not, match a pattern.
#[derive(Debug)]
pub struct RegexValidator {
    pattern: CompiledPattern,
    name: String,
    must_match: bool,
}

impl RegexValidator {
    /// The pattern's text.
    pub closed spec fn source_spec(&self) -> Seq<char> {
        self.pattern.source_spec()
    }

    /// Whether the pattern must match (rather than must not).
    pub closed spec fn must_match_spec(&self) -> bool {
        self.must_match
    }

    /// The name.
    pub closed spec fn name_spec(&self) -> Seq<char> {
        self.name@
    }

    /// A validator that requires the pattern to match, named
    /// `regex-must-match`; the regex crate's error for a pattern it does
    /// not compile.
    pub fn must_match(pattern: &str) -> (r: Result<Self, regex::Error>)
        ensures
            r matches Ok(v) ==> v.source_spec() == pattern@ && v.must_match_spec() && v.name_spec()
                == "regex-must-match"@,
    {
        match CompiledPattern::new(pattern) {
            Ok(p) => Ok(RegexValidator { pattern: p, name: owned("regex-must-match"), must_match: true }),
            Err(e) => Err(e),
        }
    }

    /// A validator that requires the pattern not to match, named
    /// `regex-must-not-match`; the regex crate's error for a pattern it
    /// does not compile.
    pub fn must_not_match(pattern: &str) -> (r: Result<Self, regex::Error>)
        ensures
            r matches Ok(v) ==> v.source_spec() == pattern@ && !v.must_match_spec()
                && v.name_spec() == "regex-must-not-match"@,
    {
        match CompiledPattern::new(pattern) {
            Ok(p) => Ok(
                RegexValidator { pattern: p, name: owned("regex-must-not-match"), must_match: false },
            ),
            Err(e) => Err(e),
        }
    }

    /// Set the validator name.
    pub fn with_name(self, name: &str) -> (r: Self)
        ensures
            r.source_spec() == self.source_spec(),
            r.must_match_spec() == self.must_match_spec(),
            r.name_spec() == name@,
    {
        RegexValidator { pattern: self.pattern, name: owned(name), must_match: self.must_match }
    }
}

/// The errors of a regex check.
pub open spec fn regex_errors(source: Seq<char>, must_match: bool, matched: bool) -> Seq<Seq<char>> {
    if must_match && !matched {
        seq!["Output must match pattern: "@ + source]
    } else if !must_match && matched {
        seq!["Output must not match pattern: "@ + source]
    } else {
        Seq::empty()
    }
}

impl Validator for RegexValidator {
    open spec fn gives(&self, output: Seq<char>, r: ValidationResult) -> bool {
        verdict_is(
            r,
            regex_errors(
                self.source_spec(),
                self.must_match_spec(),
                regex_matches(self.source_spec(), output),
            ),
        )
    }

    fn validate(&self, output: &str) -> (r: ValidationResult) {
        let matches = self.pattern.is_match(output);
        if self.must_match && !matches {
            let mut m = owned("Output must match pattern: ");
            push_str(&mut m, self.pattern.as_str());
            let errors = vec![m];
            assert(views(errors@) =~= seq![m@]);
            ValidationResult::Invalid { errors }
        } else if !self.must_match && matches {
            let mut m = owned("Output must not match pattern: ");
            push_str(&mut m, self.pattern.as_str());
            let errors = vec![m];
            assert(views(errors@) =~= seq![m@]);
            ValidationResult::Invalid { errors }
        } else {
            ValidationResult::Valid
        }
    }

    fn name(&self) -> (r: &str)
        ensures
            r@ == self.name_spec(),
    {
        self.name.as_str()
    }
}

// ---------------------------------------------------------------------------
// JSON
// ---------------------------------------------------------------------------

/// The type of a JSON value.
#[derive(Debug, Clone, Copy, PartialEq, Eq, Structural)]
pub enum JsonKind {
    Null,
    Boolean,
    Number,
    String,
    Array,
    Object,
}

/// The name of a JSON type as JSON Schema writes it.
pub open spec fn kind_name(k: JsonKind) -> Seq<char> {
    match k {
        JsonKind::Null => "null"@,
        JsonKind::Boolean => "boolean"@,
        JsonKind::Number => "number"@,
        JsonKind::String => "string"@,
        JsonKind::Array => "array"@,
        JsonKind::Object => "object"@,
    }
}

/// A JSON validator accepts exactly the parsed output of the type that its
/// schema names with JSON Schema's names: `"null"`, `"boolean"`,
/// `"number"` (any JSON number), `"string"`, `"array"` and `"object"`.
pub proof fn law_json_type_names(v: JsonSchemaValidator, output: Seq<char>, r: ValidationResult)
    requires
        v.gives(output, r),
        json_parses(output),
    ensures
        v.expected_type_spec() == Some("null"@) ==> (r is Valid <==> json_kind(output) == JsonKind::Null),
        v.expected_type_spec() == Some("boolean"@) ==> (r is Valid <==> json_kind(output) == JsonKind::Boolean),
        v.expected_type_spec() == Some("number"@) ==> (r is Valid <==> json_kind(output) == JsonKind::Number),
        v.expected_type_spec() == Some("string"@) ==> (r is Valid <==> json_kind(output) == JsonKind::String),
        v.expected_type_spec() == Some("array"@) ==> (r is Valid <==> json_kind(output) == JsonKind::Array),
        v.expected_type_spec() == Some("object"@) ==> (r is Valid <==> json_kind(output) == JsonKind::Object),
{
    reveal_strlit("null");
    reveal_strlit("boolean");
    reveal_strlit("number");
    reveal_strlit("string");
    reveal_strlit("array");
    reveal_strlit("object");
    // the six names differ in length or in their first letter
    assert("null"@.len() == 4 && "boolean"@.len() == 7 && "array"@.len() == 5);
    assert("number"@[0] == 'n' && "string"@[0] == 's' && "object"@[0] == 'o');
    assert("number"@.len() == 6 && "string"@.len() == 6 && "object"@.len() == 6);
    let k = json_kind(output);
    assert(kind_name(k) == "null"@ <==> k == JsonKind::Null);
    assert(kind_name(k) == "boolean"@ <==> k == JsonKind::Boolean);
    assert(kind_name(k) == "number"@ <==> k == JsonKind::Number);
    assert(kind_name(k) == "string"@ <==> k == JsonKind::String);
    assert(kind_name(k) == "array"@ <==> k == JsonKind::Array);
    assert(kind_name(k) == "object"@ <==> k == JsonKind::Object);
}

/// The name of a JSON type as JSON Schema writes it.
pub fn kind_name_str(k: JsonKind) -> (r: &'static str)
    ensures
        r@ == kind_name(k),
{
    proof {
        reveal_strlit("null");
        reveal_strlit("boolean");
        reveal_strlit("number");
        reveal_strlit("string");
        reveal_strlit("array");
        reveal_strlit("object");
    }
    match k {
        JsonKind::Null => "null",
        JsonKind::Boolean => "boolean",
        JsonKind::Number => "number",
        JsonKind::String => "string",
        JsonKind::Array => "array",
        JsonKind::Object => "object",
    }
}

/// Whether `text` is JSON that `serde_json` parses.
pub uninterp spec fn json_parses(text: Seq<char>) -> bool;

/// The type of the JSON value `text` holds (when it parses).
pub uninterp spec fn json_kind(text: Seq<char>) -> JsonKind;

/// `serde_json::from_str::<serde_json::Value>`: parses JSON text and
/// tells the parsed value's variant; it succeeds exactly when `json_parses`
/// holds, with the type `json_kind` names.
#[verifier::external_body]
fn json_parse_kind(text: &str) -> (r: Result<JsonKind, serde_json::Error>)
    ensures
        r is Ok <==> json_parses(text@),
        r matches Ok(k) ==> k == json_kind(text@),
{
    serde_json::from_str::<serde_json::Value>(text).map(|v| match v {
        serde_json::Value::Null => JsonKind::Null,
        serde_json::Value::Bool(_) => JsonKind::Boolean,
        serde_json::Value::Number(_) => JsonKind::Number,
        serde_json::Value::String(_) => JsonKind::String,
        serde_json::Value::Array(_) => JsonKind::Array,
        serde_json::Value::Object(_) => JsonKind::Object,
    })
}

/// The message of a `serde_json::Error` (its `Display`).  Nothing is
/// stated of the text.
#[verifier::external_body]
fn json_error_message(e: &serde_json::Error) -> String {
    e.to_string()
}

/// JSON validator: the output must be JSON of the type that the schema's
/// `type` keyword names (only that keyword is checked, so only it is
/// kept).
#[derive(Debug)]
pub struct JsonSchemaValidator {
    expected_type: Option<String>,
    name: String,
}

impl JsonSchemaValidator {
    /// The name.
    pub closed spec fn name_spec(&self) -> Seq<char> {
        self.name@
    }

    /// The type the schema's `type` keyword names, if it names one.
    pub closed spec fn expected_type_spec(&self) -> Option<Seq<char>> {
        match self.expected_type {
            Some(t) => Some(t@),
            None => None,
        }
    }

    /// A JSON validator, named `json-schema`, for a schema whose `type`
    /// keyword names `expected_type` (`None` when the schema names no
    /// type).
    pub fn new(expected_type: Option<String>) -> (r: Self)
        ensures
            r.name_spec() == "json-schema"@,
            r.expected_type_spec() == (match expected_type {
                Some(t) => Some(t@),
                None => None::<Seq<char>>,
            }),
    {
        JsonSchemaValidator { expected_type, name: owned("json-schema") }
    }

    /// Set the validator name.
    pub fn with_name(self, name: &str) -> (r: Self)
        ensures
            r.name_spec() == name@,
            r.expected_type_spec() == self.expected_type_spec(),
    {
        JsonSchemaValidator { expected_type: self.expected_type, name: owned(name) }
    }
}

impl Validator for JsonSchemaValidator {
    /// Output that does not parse is invalid with one error starting
    /// `Invalid JSON: `; parsed output is valid when the schema names no
    /// type or the type it names, and otherwise invalid with one error
    /// naming the expected type and the actual one.
    open spec fn gives(&self, output: Seq<char>, r: ValidationResult) -> bool {
        if !json_parses(output) {
            r is Invalid && r.errors_spec().len() == 1 && r.errors_spec()[0].take(14)
                == "Invalid JSON: "@
        } else {
            match self.expected_type_spec() {
                None => r is Valid,
                Some(expected) => if expected == kind_name(json_kind(output)) {
                    r is Valid
                } else {
                    r is Invalid && r.errors_spec() == seq![
                        "Expected type '"@ + expected + "', got '"@ + kind_name(json_kind(output)) + "'"@,
                    ]
                },
            }
        }
    }

    fn validate(&self, output: &str) -> (r: ValidationResult) {
        match json_parse_kind(output) {
            Ok(actual) => {
                match &self.expected_type {
                    Some(expected) => {
                        if !crate::text::str_eq(expected.as_str(), kind_name_str(actual)) {
                            let mut m = owned("Expected type '");
                            push_str(&mut m, expected.as_str());
                            push_str(&mut m, "', got '");
                            push_str(&mut m, kind_name_str(actual));
                            push_str(&mut m, "'");
                            let errors = vec![m];
                            assert(views(errors@) =~= seq![m@]);
                            return ValidationResult::Invalid { errors };
                        }
                        ValidationResult::Valid
                    },
                    None => ValidationResult::Valid,
                }
            },
            Err(e) => {
                let mut m = owned("Invalid JSON: ");
                proof {
                    reveal_strlit("Invalid JSON: ");
                }
                push_str(&mut m, json_error_message(&e).as_str());
                let errors = vec![m];
                assert(views(errors@) =~= seq![m@]);
                assert(m@.take(14) =~= "Invalid JSON: "@);
                ValidationResult::Invalid { errors }
            },
        }
    }

    fn name(&self) -> (r: &str)
        ensures
            r@ == self.name_spec(),
    {
        self.name.as_str()
    }
}


// ---------------------------------------------------------------------------
// Per-skill validation
// ---------------------------------------------------------------------------

/// The errors of a list of results, in order.
pub open spec fn collected_errors(rs: Seq<ValidationResult>) -> Seq<Seq<char>>
    decreases rs.len(),
{
    if rs.len() == 0 {
        Seq::empty()
    } else {
        collected_errors(rs.drop_last()) + rs.last().errors_spec()
    }
}

/// `rs` are results the validators `vs` may give for `output`, one each.
pub open spec fn results_of(vs: Seq<Box<dyn Validator>>, output: Seq<char>, rs: Seq<ValidationResult>) -> bool {
    &&& rs.len() == vs.len()
    &&& forall|i: int| 0 <= i < vs.len() ==> vs[i].gives(output, #[trigger] rs[i])
}

/// Collection of validators for different skills.
pub struct OutputValidator {
    validators: StrMap<Vec<Box<dyn Validator>>>,
    default_validators: Vec<Box<dyn Validator>>,
}

impl OutputValidator {
    /// The validators of each skill.
    pub closed spec fn skill_validators(&self) -> Map<Seq<char>, Seq<Box<dyn Validator>>> {
        self.validators.view().map_values(|v: Vec<Box<dyn Validator>>| v@)
    }

    /// The validators that apply to every skill.
    pub closed spec fn defaults(&self) -> Seq<Box<dyn Validator>> {
        self.default_validators@
    }

    /// The validators that apply to a skill: the defaults, then its own.
    pub open spec fn applicable(&self, skill: Seq<char>) -> Seq<Box<dyn Validator>> {
        if self.skill_validators().dom().contains(skill) {
            self.defaults() + self.skill_validators()[skill]
        } else {
            self.defaults()
        }
    }

    /// Invariant.
    pub closed spec fn wf(&self) -> bool {
        self.validators.wf()
    }

    /// An empty collection.
    pub fn new() -> (r: Self)
        ensures
            r.wf(),
            r.skill_validators() == Map::<Seq<char>, Seq<Box<dyn Validator>>>::empty(),
            r.defaults().len() == 0,
    {
        let r = OutputValidator { validators: StrMap::new(), default_validators: Vec::new() };
        assert(r.skill_validators() =~= Map::<Seq<char>, Seq<Box<dyn Validator>>>::empty());
        r
    }

    /// Add a validator for a specific skill (after its others).
    pub fn add_for_skill(&mut self, skill: SkillName, validator: Box<dyn Validator>)
        requires
            old(self).wf(),
        ensures
            final(self).wf(),
            final(self).defaults() == old(self).defaults(),
            final(self).skill_validators() == old(self).skill_validators().insert(
                skill@,
                if old(self).skill_validators().dom().contains(skill@) {
                    old(self).skill_validators()[skill@].push(validator)
                } else {
                    seq![validator]
                },
            ),
            final(self).applicable(skill@) == old(self).applicable(skill@).push(validator),
            final(self).applicable(skill@).len() == old(self).applicable(skill@).len() + 1,
            final(self).applicable(skill@).drop_last() == old(self).applicable(skill@),
            forall|other: Seq<char>| other != skill@ ==> #[trigger] final(self).applicable(other) == old(self).applicable(other),
    {
        proof {
            self.validators.lemma_view();
        }
        let ghost m0 = self.validators.view();
        let ghost val = validator;
        match self.validators.index_of(skill.as_str()) {
            Some(i) => {
                let (key, mut list) = self.validators.take_at(i);
                let ghost l0 = list@;
                assert(m0[skill@]@ == l0);
                list.push(validator);
                self.validators.put_at(i, key, list);
                assert(self.validators.view().map_values(|v: Vec<Box<dyn Validator>>| v@) =~= m0.map_values(
                    |v: Vec<Box<dyn Validator>>| v@,
                ).insert(skill@, l0.push(val)));
            },
            None => {
                let mut list: Vec<Box<dyn Validator>> = Vec::new();
                list.push(validator);
                assert(list@ =~= seq![val]);
                self.validators.insert(skill.into_string(), list);
                assert(self.validators.view().map_values(|v: Vec<Box<dyn Validator>>| v@) =~= m0.map_values(
                    |v: Vec<Box<dyn Validator>>| v@,
                ).insert(skill@, seq![val]));
            },
        }
        proof {
            let d = old(self).defaults();
            if old(self).skill_validators().dom().contains(skill@) {
                lemma_append_push(d, old(self).skill_validators()[skill@], val);
            } else {
                lemma_append_single(d, val);
            }
            lemma_push_facts(old(self).applicable(skill@), val);
        }
    }

    /// Add a default validator (applies to all skills).
    pub fn add_default(&mut self, validator: Box<dyn Validator>)
        requires
            old(self).wf(),
        ensures
            final(self).wf(),
            final(self).defaults() == old(self).defaults().push(validator),
            final(self).defaults().len() == old(self).defaults().len() + 1,
            final(self).defaults().drop_last() == old(self).defaults(),
            final(self).skill_validators() == old(self).skill_validators(),
    {
        let ghost d0 = self.default_validators@;
        let ghost v = validator;
        self.default_validators.push(validator);
        proof {
            lemma_push_facts(d0, v);
        }
    }

    /// Runs validators in order, appending the errors of invalid results.
    fn run_all(vs: &Vec<Box<dyn Validator>>, output: &str, errors: &mut Vec<String>) -> (rs: Ghost<
        Seq<ValidationResult>,
    >)
        ensures
            results_of(vs@, output@, rs@),
            views(final(errors)@) == views(old(errors)@) + collected_errors(rs@),
    {
        let ghost mut rs: Seq<ValidationResult> = Seq::empty();
        let ghost e0 = views(errors@);
        let mut i: usize = 0;
        while i < vs.len()
            invariant
                i <= vs@.len(),
                rs.len() == i,
                forall|j: int| 0 <= j < i ==> vs@[j].gives(output@, #[trigger] rs[j]),
                views(errors@) == e0 + collected_errors(rs),
            decreases vs.len() - i,
        {
            let r = vs[i].validate(output);
            let ghost rs0 = rs;
            proof {
                rs = rs.push(r);
                assert(rs.drop_last() =~= rs0);
            }
            match r {
                ValidationResult::Invalid { errors: es } => {
                    let ghost before = views(errors@);
                    let mut k: usize = 0;
                    while k < es.len()
                        invariant
                            k <= es@.len(),
                            views(errors@) == before + views(es@).take(k as int),
                        decreases es.len() - k,
                    {
                        let ghost x0 = errors@;
                        errors.push(es[k].clone());
                        assert(views(errors@) =~= views(x0).push(es@[k as int]@));
                        assert(views(es@).take(k + 1) =~= views(es@).take(k as int).push(es@[k as int]@));
                        k += 1;
                    }
                    assert(views(es@).take(k as int) =~= views(es@));
                },
                _ => {
                    assert(r.errors_spec() =~= Seq::<Seq<char>>::empty());
                },
            }
            i += 1;
        }
        Ghost(rs)
    }

    /// Validates output for a skill: the default validators, then the
    /// skill's own, are run; the result is invalid with all their errors
    /// in that order, or valid when there are none.
    pub fn validate(&self, skill: &SkillName, output: &str) -> (r: ValidationResult)
        requires
            self.wf(),
        ensures
            exists|rs: Seq<ValidationResult>|
                results_of(self.applicable(skill@), output@, rs) && verdict_is(
                    r,
                    collected_errors(rs),
                ),
    {
        let mut all_errors: Vec<String> = Vec::new();
        let Ghost(rd) = OutputValidator::run_all(&self.default_validators, output, &mut all_errors);
        let ghost mut rs = rd;
        match self.validators.get(skill.as_str()) {
            Some(list) => {
                let Ghost(rk) = OutputValidator::run_all(list, output, &mut all_errors);
                proof {
                    lemma_collected_append(rd, rk);
                    rs = rd + rk;
                    assert(self.skill_validators()[skill@] == list@);
                    assert forall|i: int| 0 <= i < rs.len() implies self.applicable(skill@)[i].gives(
                        output@,
                        #[trigger] rs[i],
                    ) by {
                        if i < rd.len() {
                        } else {
                            assert(rs[i] == rk[i - rd.len()]);
                        }
                    }
                }
            },
            None => {
                assert(!self.skill_validators().dom().contains(skill@));
                assert(self.applicable(skill@) == self.defaults());
            },
        }
        assert(views(all_errors@) =~= collected_errors(rs));
        assert(views(all_errors@).len() == all_errors@.len());
        assert(results_of(self.applicable(skill@), output@, rs));
        if all_errors.len() == 0 {
            ValidationResult::Valid
        } else {
            ValidationResult::Invalid { errors: all_errors }
        }
    }
}

/// The errors of two lists of results one after the other.
pub proof fn lemma_collected_append(a: Seq<ValidationResult>, b: Seq<ValidationResult>)
    ensures
        collected_errors(a + b) == collected_errors(a) + collected_errors(b),
    decreases b.len(),
{
    if b.len() == 0 {
        assert(a + b =~= a);
    } else {
        lemma_collected_append(a, b.drop_last());
        assert((a + b).drop_last() =~= a + b.drop_last());
    }
}

/// A validator after others adds its verdict's errors after theirs:
/// results that the validators `vs` may give are results the validators
/// before the last may give, then one the last may give, and their errors
/// are the errors of the first ones, then those of the last.  (With
/// `add_for_skill`, which puts a validator after a skill's others, this is
/// what `validate` then finds for that skill.)
pub proof fn law_last_validator_appends_errors(
    vs: Seq<Box<dyn Validator>>,
    output: Seq<char>,
    rs: Seq<ValidationResult>,
)
    requires
        vs.len() > 0,
        results_of(vs, output, rs),
    ensures
        results_of(vs.drop_last(), output, rs.drop_last()),
        vs.last().gives(output, rs.last()),
        collected_errors(rs) == collected_errors(rs.drop_last()) + rs.last().errors_spec(),
{
    assert(vs[vs.len() - 1].gives(output, rs[vs.len() - 1]));
    assert forall|i: int| 0 <= i < vs.len() - 1 implies vs.drop_last()[i].gives(output, #[trigger] rs.drop_last()[i]) by {
        assert(vs[i].gives(output, rs[i]));
    }
}

/// Adding a validator for a skill (`add_for_skill` turns `before` into
/// `after`) adds its errors after the others when that skill's output is
/// validated: any results the skill's validators in `after` may give are
/// results those in `before` may give, then one of the added validator,
/// and the errors are the earlier ones followed by its own.  Other skills
/// keep their validators (`add_for_skill` states that too).
pub proof fn law_add_for_skill_then_validate(
    before: OutputValidator,
    after: OutputValidator,
    skill: Seq<char>,
    output: Seq<char>,
    rs: Seq<ValidationResult>,
)
    requires
        after.applicable(skill).len() == before.applicable(skill).len() + 1,
        after.applicable(skill).drop_last() == before.applicable(skill),
        results_of(after.applicable(skill), output, rs),
    ensures
        results_of(before.applicable(skill), output, rs.drop_last()),
        after.applicable(skill).last().gives(output, rs.last()),
        collected_errors(rs) == collected_errors(rs.drop_last()) + rs.last().errors_spec(),
{
    law_last_validator_appends_errors(after.applicable(skill), output, rs);
}

impl Default for OutputValidator {
    fn default() -> (r: Self)
        ensures
            r.wf(),
            r.skill_validators() == Map::<Seq<char>, Seq<Box<dyn Validator>>>::empty(),
            r.defaults().len() == 0,
    {
        OutputValidator::new()
    }
}

} // verus!
