//! Skill schema types: validated names, parsed skills, metadata views and
//! the token estimate.

use vstd::prelude::*;
use vstd::string::StringSliceAdditionalSpecFns;

use crate::error::ValidationError;

use crate::strmap::StrMap;
use crate::text::{
    ascii_lower, ascii_lowercase, chars_of, comma_list, is_ascii_alnum, is_ascii_alnum_spec,
    copy_strings, is_ascii_upper_spec, parse_comma_list, str_eq, views,
};

verus! {

broadcast use vstd::string::group_string_axioms;

/// Maximum length of a skill name, in bytes.
pub const MAX_NAME_LEN: usize = 64;

/// A character allowed in a skill name: `[a-zA-Z0-9._-]`.
pub open spec fn name_char_ok(c: char) -> bool {
    is_ascii_alnum_spec(c) || c == '.' || c == '_' || c == '-'
}

/// Every character of `s` before position `n` is allowed in a name.
pub open spec fn name_chars_ok_upto(s: Seq<char>, n: int) -> bool {
    forall|i: int| 0 <= i < n ==> name_char_ok(#[trigger] s[i])
}

/// Position of the first character not allowed in a name, if any.
pub open spec fn first_bad_name_char(s: Seq<char>) -> Option<int> {
    if name_chars_ok_upto(s, s.len() as int) {
        None
    } else {
        Some(choose|p: int| 0 <= p < s.len() && !name_char_ok(s[p]) && name_chars_ok_upto(s, p))
    }
}

/// What `SkillName::new` gives for a candidate name `s` whose UTF-8 length is
/// `byte_len`: the lower-cased name, or the first rule it breaks.
pub open spec fn name_check(s: Seq<char>, byte_len: nat) -> Result<Seq<char>, ValidationError> {
    if s.len() == 0 {
        Err(ValidationError::EmptyName)
    } else if byte_len > MAX_NAME_LEN {
        Err(ValidationError::NameTooLong { len: byte_len as usize })
    } else {
        match first_bad_name_char(s) {
            Some(p) => Err(ValidationError::InvalidNameChar { ch: s[p], pos: p as usize }),
            None => Ok(ascii_lower(s)),
        }
    }
}

/// A valid stored name: 1 to 64 allowed characters, none upper case.
pub open spec fn valid_stored_name(s: Seq<char>) -> bool {
    &&& 1 <= s.len() <= MAX_NAME_LEN
    &&& name_chars_ok_upto(s, s.len() as int)
    &&& forall|i: int| 0 <= i < s.len() ==> !is_ascii_upper_spec(#[trigger] s[i])
}

/// Names are case-insensitive: a text that lower-cases to the same as a
/// valid name gives the same name (the same result of `SkillName::new`).
pub proof fn law_name_case_insensitive(s: &str, t: &str)
    requires
        name_check(s@, s.spec_bytes().len()) is Ok,
        ascii_lower(t@) == ascii_lower(s@),
    ensures
        name_check(t@, t.spec_bytes().len()) == name_check(s@, s.spec_bytes().len()),
{
    let bs = s.spec_bytes().len();
    assert(first_bad_name_char(s@) is None);
    assert(name_chars_ok_upto(s@, s@.len() as int));
    assert(t@.len() == ascii_lower(t@).len());
    assert(t@.len() == s@.len());
    assert forall|i: int| 0 <= i < t@.len() implies name_char_ok(#[trigger] t@[i]) by {
        let c = t@[i];
        let d = s@[i];
        assert(ascii_lower(t@)[i] == ascii_lower(s@)[i]);
        assert(ascii_lower(t@)[i] == crate::text::ascii_lower_char(c));
        assert(ascii_lower(s@)[i] == crate::text::ascii_lower_char(d));
        assert(crate::text::ascii_lower_char(c) == crate::text::ascii_lower_char(d));
        assert(name_char_ok(d));
        if !is_ascii_upper_spec(c) && is_ascii_upper_spec(d) {
            let u = (d as u32) + 32;
            assert(0x61 <= u <= 0x7A);
            assert((u as char) as int == u as int);
            assert(c == u as char);
        }
    }
    assert(name_chars_ok_upto(t@, t@.len() as int));
    assert(vstd::string::is_ascii(s));
    assert(vstd::string::is_ascii(t));
    assert(s.spec_bytes().len() == s@.len());
    assert(t.spec_bytes().len() == t@.len());
}

/// A name's own text gives the name back: `SkillName::new` on the stored
/// (lower-case) text of a name is that name.
pub proof fn law_name_round_trip(s: &str, t: &str)
    requires
        name_check(s@, s.spec_bytes().len()) matches Ok(n) && t@ == n,
    ensures
        name_check(t@, t.spec_bytes().len()) == Ok::<Seq<char>, ValidationError>(t@),
{
    assert(ascii_lower(t@) =~= ascii_lower(s@));
    law_name_case_insensitive(s, t);
}

/// A validated skill name, stored lower case for case-insensitive matching.
#[derive(Debug, Hash)]
pub struct SkillName(String);

impl View for SkillName {
    type V = Seq<char>;

    closed spec fn view(&self) -> Seq<char> {
        self.0@
    }
}

/// Lower-casing a valid name keeps it valid.
pub proof fn lemma_lower_valid(s: Seq<char>)
    requires
        1 <= s.len() <= MAX_NAME_LEN,
        name_chars_ok_upto(s, s.len() as int),
    ensures
        valid_stored_name(ascii_lower(s)),
{
    let l = ascii_lower(s);
    assert forall|i: int| 0 <= i < l.len() implies name_char_ok(#[trigger] l[i])
        && !is_ascii_upper_spec(l[i]) by {
        assert(name_char_ok(s[i]));
    }
}

impl SkillName {
    /// The stored name is valid.
    pub closed spec fn wf(&self) -> bool {
        valid_stored_name(self.0@)
    }

    /// Validates `s` (1 to 64 bytes of `[a-zA-Z0-9._-]`) and stores it lower case.
    pub fn new(s: &str) -> (r: Result<SkillName, ValidationError>)
        ensures
            match name_check(s@, s.spec_bytes().len()) {
                Ok(v) => r matches Ok(n) && n@ == v && n.wf(),
                Err(e) => r == Err::<SkillName, ValidationError>(e),
            },
    {
        if s.is_empty() {
            return Err(ValidationError::EmptyName);
        }
        let byte_len = s.as_bytes().len();
        if byte_len > MAX_NAME_LEN {
            return Err(ValidationError::NameTooLong { len: byte_len });
        }
        let v = chars_of(s);
        let mut i: usize = 0;
        while i < v.len()
            invariant
                i <= v@.len(),
                v@ == s@,
                s@.len() != 0,
                s.spec_bytes().len() <= MAX_NAME_LEN,
                name_chars_ok_upto(s@, i as int),
            decreases v.len() - i,
        {
            let c = v[i];
            if !(is_ascii_alnum(c) || c == '.' || c == '_' || c == '-') {
                assert(first_bad_name_char(s@) == Some(i as int)) by {
                    let p = choose|p: int|
                        0 <= p < s@.len() && !name_char_ok(s@[p]) && name_chars_ok_upto(s@, p);
                    assert(p >= i);
                    if p > i {
                        assert(name_char_ok(s@[i as int]));
                    }
                }
                return Err(ValidationError::InvalidNameChar { ch: c, pos: i });
            }
            i += 1;
        }
        proof {
            // every character is ASCII, so there are as many bytes as characters
            assert(vstd::utf8::is_ascii_chars(s@)) by {
                assert forall|k: int| 0 <= k < s@.len() implies '\0' <= #[trigger] s@[k] <= '\u{7f}' by {
                    assert(name_char_ok(s@[k]));
                    assert((s@[k] as int) <= 127);
                }
            }
            vstd::string::is_ascii_spec_bytes(s);
            lemma_lower_valid(s@);
        }
        let lower = ascii_lowercase(s);
        Ok(SkillName(lower))
    }

    /// The stored (lower-case) name.
    pub fn as_str(&self) -> (r: &str)
        ensures
            r@ == self@,
    {
        self.0.as_str()
    }

    /// The name as displayed.
    pub fn to_string(&self) -> (r: String)
        ensures
            r@ == self@,
    {
        self.0.clone()
    }

    /// Equality of names.
    pub fn same(&self, other: &SkillName) -> (b: bool)
        ensures
            b == (self@ == other@),
    {
        str_eq(self.0.as_str(), other.0.as_str())
    }

    /// A valid name holds only `[a-z0-9._-]`: in particular no `\`, no
    /// `/` and no `:`.
    pub proof fn lemma_plain(&self)
        requires
            self.wf(),
        ensures
            !self@.contains('\\'),
            !self@.contains('/'),
            !self@.contains(':'),
    {
        assert forall|i: int| 0 <= i < self@.len() implies name_char_ok(#[trigger] self@[i]) by {}
    }

    /// A copy of the name.
    pub fn duplicate(&self) -> (r: SkillName)
        ensures
            r@ == self@,
            self.wf() ==> r.wf(),
    {
        SkillName(self.0.clone())
    }

    /// The owned string.
    pub fn into_string(self) -> (r: String)
        ensures
            r@ == self@,
    {
        self.0
    }
}


impl Clone for SkillName {
    fn clone(&self) -> (r: Self)
        ensures
            r@ == self@,
    {
        SkillName(self.0.clone())
    }
}

impl PartialEq for SkillName {
    fn eq(&self, other: &Self) -> (r: bool) {
        str_eq(self.0.as_str(), other.0.as_str())
    }
}

impl Eq for SkillName {}

impl vstd::std_specs::cmp::PartialEqSpecImpl for SkillName {
    open spec fn obeys_eq_spec() -> bool {
        true
    }

    open spec fn eq_spec(&self, other: &Self) -> bool {
        self@ == other@
    }
}

// ---------------------------------------------------------------------------
// Token estimate
// ---------------------------------------------------------------------------

/// CJK unified ideographs (and extensions A to G), Hiragana, Katakana and
/// Hangul syllables.
pub open spec fn is_cjk_spec(c: char) -> bool {
    let u = c as int;
    ||| (0x4E00 <= u && u <= 0x9FFF)
    ||| (0x3400 <= u && u <= 0x4DBF)
    ||| (0x20000 <= u && u <= 0x2A6DF)
    ||| (0x2A700 <= u && u <= 0x2B73F)
    ||| (0x2B740 <= u && u <= 0x2B81F)
    ||| (0x2B820 <= u && u <= 0x2CEAF)
    ||| (0x2CEB0 <= u && u <= 0x2EBEF)
    ||| (0x30000 <= u && u <= 0x3134F)
    ||| (0x3040 <= u && u <= 0x309F)
    ||| (0x30A0 <= u && u <= 0x30FF)
    ||| (0xAC00 <= u && u <= 0xD7AF)
}

/// Whether a character is CJK (Chinese, Japanese, Korean).
pub fn is_cjk(ch: char) -> (r: bool)
    ensures
        r == is_cjk_spec(ch),
{
    let u = ch as u32;
    (0x4E00 <= u && u <= 0x9FFF) || (0x3400 <= u && u <= 0x4DBF) || (0x20000 <= u && u
        <= 0x2A6DF) || (0x2A700 <= u && u <= 0x2B73F) || (0x2B740 <= u && u <= 0x2B81F) || (
    0x2B820 <= u && u <= 0x2CEAF) || (0x2CEB0 <= u && u <= 0x2EBEF) || (0x30000 <= u && u
        <= 0x3134F) || (0x3040 <= u && u <= 0x309F) || (0x30A0 <= u && u <= 0x30FF) || (0xAC00
        <= u && u <= 0xD7AF)
}

/// Number of CJK characters in `s`.
pub open spec fn cjk_count(s: Seq<char>) -> nat
    decreases s.len(),
{
    if s.len() == 0 {
        0
    } else {
        cjk_count(s.drop_last()) + if is_cjk_spec(s.last()) {
            1nat
        } else {
            0nat
        }
    }
}

/// Estimated tokens: two CJK characters or three and a half other
/// characters per token, rounded up: the ceiling of `cjk/2 + other/3.5`,
/// which is the ceiling of `(7 * cjk + 4 * other) / 14`.
pub open spec fn token_estimate(s: Seq<char>) -> nat {
    let c = cjk_count(s);
    let o = (s.len() - c) as nat;
    ((7 * c + 4 * o + 13) / 14) as nat
}

proof fn lemma_cjk_count_le(s: Seq<char>)
    ensures
        cjk_count(s) <= s.len(),
    decreases s.len(),
{
    if s.len() > 0 {
        lemma_cjk_count_le(s.drop_last());
    }
}

/// Estimated token count of a text (CJK aware).
pub fn estimate_tokens(text: &str) -> (n: usize)
    ensures
        n == token_estimate(text@),
{
    let v = chars_of(text);
    let mut cjk: usize = 0;
    let mut i: usize = 0;
    while i < v.len()
        invariant
            i <= v@.len(),
            v@ == text@,
            cjk == cjk_count(v@.take(i as int)),
            cjk <= i,
        decreases v.len() - i,
    {
        assert(v@.take(i + 1).drop_last() =~= v@.take(i as int));
        if is_cjk(v[i]) {
            cjk += 1;
        }
        i += 1;
    }
    assert(v@.take(v@.len() as int) =~= v@);
    let other: usize = v.len() - cjk;
    let total: u128 = 7 * (cjk as u128) + 4 * (other as u128) + 13;
    let r: u128 = total / 14;
    assert(r <= v@.len()) by (nonlinear_arith)
        requires
            total == 7 * cjk + 4 * other + 13,
            r == total / 14,
            cjk + other == v@.len(),
    ;
    r as usize
}

// ---------------------------------------------------------------------------
// Skills
// ---------------------------------------------------------------------------

/// The list stored under `key` in the metadata, or nothing.
pub open spec fn metadata_list(m: Map<Seq<char>, String>, key: Seq<char>) -> Seq<Seq<char>> {
    if m.dom().contains(key) {
        comma_list(m[key]@)
    } else {
        Seq::empty()
    }
}

/// The list under `key`, or under `alt` when `key` is absent.
pub open spec fn metadata_list_or(
    m: Map<Seq<char>, String>,
    key: Seq<char>,
    alt: Seq<char>,
) -> Seq<Seq<char>> {
    if m.dom().contains(key) {
        comma_list(m[key]@)
    } else {
        metadata_list(m, alt)
    }
}

/// A parsed agent skill.
#[derive(Debug, Clone)]
pub struct Skill {
    /// Skill name.
    pub name: SkillName,
    /// Free text description, used for selection.
    pub description: String,
    /// License identifier.
    pub license: Option<String>,
    /// Compatibility information.
    pub compatibility: Option<String>,
    /// Extensible key-value metadata (`triggers`, `tags`, `allowed_tools`, ...).
    pub metadata: StrMap<String>,
    /// Markdown body after the frontmatter.
    pub instructions: String,
    /// Path of the SKILL.md file.
    pub source_path: String,
}

fn list_under(m: &StrMap<String>, key: &str) -> (r: Vec<String>)
    requires
        m.wf(),
    ensures
        views(r@) == metadata_list(m.view(), key@),
{
    match m.get(key) {
        Some(v) => parse_comma_list(v.as_str()),
        None => {
            let r: Vec<String> = Vec::new();
            assert(views(r@) =~= Seq::<Seq<char>>::empty());
            r
        },
    }
}

fn list_under_or(m: &StrMap<String>, key: &str, alt: &str) -> (r: Vec<String>)
    requires
        m.wf(),
    ensures
        views(r@) == metadata_list_or(m.view(), key@, alt@),
{
    match m.get(key) {
        Some(v) => parse_comma_list(v.as_str()),
        None => list_under(m, alt),
    }
}

impl Skill {
    /// Invariant: the name and the metadata are well formed.
    pub open spec fn wf(&self) -> bool {
        self.name.wf() && self.metadata.wf()
    }

    /// Triggers from the `triggers` metadata entry.
    pub fn triggers(&self) -> (r: Vec<String>)
        requires
            self.metadata.wf(),
        ensures
            views(r@) == metadata_list(self.metadata.view(), "triggers"@),
    {
        list_under(&self.metadata, "triggers")
    }

    /// Tags from the `tags` metadata entry.
    pub fn tags(&self) -> (r: Vec<String>)
        requires
            self.metadata.wf(),
        ensures
            views(r@) == metadata_list(self.metadata.view(), "tags"@),
    {
        list_under(&self.metadata, "tags")
    }

    /// Allowed tools from `allowed_tools`, or else `allowed-tools`.
    pub fn allowed_tools(&self) -> (r: Vec<String>)
        requires
            self.metadata.wf(),
        ensures
            views(r@) == metadata_list_or(
                self.metadata.view(),
                "allowed_tools"@,
                "allowed-tools"@,
            ),
    {
        list_under_or(&self.metadata, "allowed_tools", "allowed-tools")
    }

    /// Negative triggers from `negative_triggers`, or else `negative-triggers`.
    pub fn negative_triggers(&self) -> (r: Vec<String>)
        requires
            self.metadata.wf(),
        ensures
            views(r@) == metadata_list_or(
                self.metadata.view(),
                "negative_triggers"@,
                "negative-triggers"@,
            ),
    {
        list_under_or(&self.metadata, "negative_triggers", "negative-triggers")
    }

    /// Estimated token count of the instructions.
    pub fn estimated_tokens(&self) -> (n: usize)
        ensures
            n == token_estimate(self.instructions@),
    {
        estimate_tokens(self.instructions.as_str())
    }
}

/// Lightweight metadata-only view of a skill (disclosure level 0).
#[derive(Debug, Clone)]
pub struct SkillMetadata {
    /// Skill name.
    pub name: SkillName,
    /// Skill description.
    pub description: String,
    /// Tags extracted from metadata.
    pub tags: Vec<String>,
    /// Triggers extracted from metadata.
    pub triggers: Vec<String>,
    /// Path of the SKILL.md file.
    pub source_path: String,
    /// Content hash for cache invalidation (xxhash64).
    pub content_hash: u64,
    /// Estimated token count of the full body.
    pub estimated_tokens: usize,
}

impl SkillMetadata {
    /// A copy of the metadata.
    pub fn copy(&self) -> (m: SkillMetadata)
        ensures
            m.name@ == self.name@,
            self.name.wf() ==> m.name.wf(),
            m.description@ == self.description@,
            views(m.tags@) == views(self.tags@),
            views(m.triggers@) == views(self.triggers@),
            m.source_path@ == self.source_path@,
            m.content_hash == self.content_hash,
            m.estimated_tokens == self.estimated_tokens,
    {
        SkillMetadata {
            name: self.name.duplicate(),
            description: self.description.clone(),
            tags: copy_strings(&self.tags),
            triggers: copy_strings(&self.triggers),
            source_path: self.source_path.clone(),
            content_hash: self.content_hash,
            estimated_tokens: self.estimated_tokens,
        }
    }

    /// Metadata of a full skill.
    pub fn from_skill(skill: &Skill, content_hash: u64) -> (m: SkillMetadata)
        requires
            skill.metadata.wf(),
        ensures
            m.name@ == skill.name@,
            skill.name.wf() ==> m.name.wf(),
            m.description@ == skill.description@,
            views(m.tags@) == metadata_list(skill.metadata.view(), "tags"@),
            views(m.triggers@) == metadata_list(skill.metadata.view(), "triggers"@),
            m.source_path@ == skill.source_path@,
            m.content_hash == content_hash,
            m.estimated_tokens == token_estimate(skill.instructions@),
    {
        SkillMetadata {
            name: skill.name.duplicate(),
            description: skill.description.clone(),
            tags: skill.tags(),
            triggers: skill.triggers(),
            source_path: skill.source_path.clone(),
            content_hash,
            estimated_tokens: skill.estimated_tokens(),
        }
    }
}

/// Usage and selection statistics for a skill.  The average score is kept
/// as the bit pattern of an `f32`.
#[derive(Debug, Clone, Copy, PartialEq, Eq, Structural)]
pub struct SkillStats {
    /// Number of times the skill was selected.
    pub selection_count: u64,
    /// Number of times the skill was activated.
    pub activation_count: u64,
    /// Number of times the skill was rejected by enforcement.
    pub rejection_count: u64,
    /// Bits of the average selection score (`f32::to_bits`).
    pub avg_selection_score_bits: u32,
    /// Last selection timestamp (Unix millis).
    pub last_selected_at: Option<u64>,
}

impl SkillStats {
    /// All counters zero, score 0.0, never selected.
    pub open spec fn zero() -> SkillStats {
        SkillStats {
            selection_count: 0,
            activation_count: 0,
            rejection_count: 0,
            avg_selection_score_bits: 0,
            last_selected_at: None,
        }
    }
}

impl Default for SkillStats {
    fn default() -> (r: Self)
        ensures
            r == SkillStats::zero(),
    {
        SkillStats {
            selection_count: 0,
            activation_count: 0,
            rejection_count: 0,
            avg_selection_score_bits: 0,
            last_selected_at: None,
        }
    }
}

} // verus!
