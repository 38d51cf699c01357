//! SKILL.md documents: YAML frontmatter between `---` lines, then a
//! markdown body.
//!
//! The parser frames the document, hands the frontmatter text to a decoder
//! (the YAML decoding is done by the caller's decoder, see `parse_str`) and
//! validates what comes back.

use vstd::prelude::*;
use vstd::string::StringSliceAdditionalSpecFns;

use crate::error::{ParseError, ValidationError};
use crate::schema::{
    metadata_list, name_check, token_estimate, Skill, SkillMetadata, SkillName,
};
use crate::strmap::{entries_map, StrMap};
use crate::text::{
    chars_of, contains_spec, is_whitespace_spec, occurs_at, occurs_at_exec, owned, slice_chars, starts_with, starts_with_spec,
    string_from, trim_chars, trim_spec, trim_start_index, trim_start_spec, views,
};

verus! {

broadcast use vstd::string::group_string_axioms;

/// Maximum description length, in bytes.
pub const MAX_DESCRIPTION_LEN: usize = 2000;

/// Position of the first occurrence of `needle` in `hay` at or after `i`.
pub open spec fn first_occurrence_from(hay: Seq<char>, needle: Seq<char>, i: int) -> Option<int>
    decreases hay.len() + 1 - i,
{
    if i < 0 || i + needle.len() > hay.len() {
        None
    } else if occurs_at(hay, needle, i) {
        Some(i)
    } else {
        first_occurrence_from(hay, needle, i + 1)
    }
}

/// Position of the first occurrence of `needle` in `hay`.
pub open spec fn first_occurrence(hay: Seq<char>, needle: Seq<char>) -> Option<int> {
    first_occurrence_from(hay, needle, 0)
}

/// Leading `\n` and `\r` characters removed.
pub open spec fn strip_leading_newlines(s: Seq<char>) -> Seq<char>
    decreases s.len(),
{
    if s.len() > 0 && (s[0] == '\n' || s[0] == '\r') {
        strip_leading_newlines(s.drop_first())
    } else {
        s
    }
}

/// Where the closing `---` line starts in the text after the opening `---`.
pub open spec fn closing_position(after_open: Seq<char>) -> Option<int> {
    match first_occurrence(after_open, "\n---"@) {
        Some(p) => Some(p),
        None => first_occurrence(after_open, "\r\n---"@),
    }
}

/// The frontmatter (trimmed) and the body of a document, if it has a
/// frontmatter: after leading white space the text starts with `---`, and
/// the frontmatter ends at the first `\n---`; the body follows that
/// `---` with leading line breaks removed.
pub open spec fn frontmatter_split(content: Seq<char>) -> Option<(Seq<char>, Seq<char>)> {
    let c = trim_start_spec(content);
    if !starts_with_spec(c, "---"@) {
        None
    } else {
        let a = c.skip(3);
        match closing_position(a) {
            None => None,
            Some(p) => Some((trim_spec(a.take(p)), strip_leading_newlines(a.skip(p + 4)))),
        }
    }
}

/// Frontmatter fields as decoded from YAML.
#[derive(Debug)]
pub struct RawFrontmatter {
    /// `name`.
    pub name: String,
    /// `description`.
    pub description: String,
    /// `license`, if present.
    pub license: Option<String>,
    /// `compatibility`, if present.
    pub compatibility: Option<String>,
    /// `metadata`, the string-to-string pairs of the mapping (none when
    /// absent).
    pub metadata: Vec<(String, String)>,
}

/// `r` is what building a skill from decoded frontmatter `raw` and body
/// `body` gives: the name validated, an empty description refused in strict
/// mode, a description over 2000 bytes refused; otherwise the skill, with
/// the lower-cased name, the fields as decoded, the body as instructions and
/// an empty source path.  Errors carry an empty path.
pub open spec fn skill_built_from(
    strict: bool,
    raw: RawFrontmatter,
    body: Seq<char>,
    r: Result<Skill, ParseError>,
) -> bool {
    let nc = name_check(raw.name@, vstd::utf8::encode_utf8(raw.name@).len());
    let dlen = vstd::utf8::encode_utf8(raw.description@).len();
    if nc is Err {
        r matches Err(ParseError::Validation { path, source }) && path@.len() == 0 && nc == Err::<
            Seq<char>,
            ValidationError,
        >(source)
    } else if strict && raw.description@.len() == 0 {
        r matches Err(ParseError::Validation { path, source }) && path@.len() == 0 && source
            == ValidationError::EmptyDescription
    } else if dlen > MAX_DESCRIPTION_LEN {
        r matches Err(ParseError::Validation { path, source }) && path@.len() == 0 && source
            == (ValidationError::DescriptionTooLong { len: dlen as usize })
    } else {
        r matches Ok(skill) && {
            &&& Ok::<Seq<char>, ValidationError>(skill.name@) == nc
            &&& skill.name.wf()
            &&& skill.description@ == raw.description@
            &&& skill.license == raw.license
            &&& skill.compatibility == raw.compatibility
            &&& skill.metadata.wf()
            &&& skill.metadata.view() == entries_map(raw.metadata@)
            &&& skill.instructions@ == body
            &&& skill.source_path@.len() == 0
        }
    }
}

/// `r` is a possible outcome of parsing `content` with decoder `decode`:
/// no frontmatter gives `MissingFrontmatter`; otherwise the decoder is run
/// on the trimmed frontmatter, its error becomes `InvalidFrontmatter`, and
/// what it decodes is built into a skill.
pub open spec fn parse_outcome<F: Fn(&str) -> Result<RawFrontmatter, String>>(
    strict: bool,
    content: Seq<char>,
    decode: F,
    r: Result<Skill, ParseError>,
) -> bool {
    match frontmatter_split(content) {
        None => r matches Err(ParseError::MissingFrontmatter { path }) && path@.len() == 0,
        Some((fm, body)) => exists|x: &str, d: Result<RawFrontmatter, String>|
            {
                &&& x@ == fm
                &&& call_ensures(decode, (x,), d)
                &&& match d {
                    Err(reason) => r matches Err(ParseError::InvalidFrontmatter { path, reason: rr })
                        && path@.len() == 0 && rr@ == reason@,
                    Ok(raw) => skill_built_from(strict, raw, body, r),
                }
            },
    }
}

/// `t` is skill `s` with its source path set to `path`.
pub open spec fn skill_at(s: Skill, path: Seq<char>, t: Skill) -> bool {
    &&& t.name == s.name
    &&& t.description == s.description
    &&& t.license == s.license
    &&& t.compatibility == s.compatibility
    &&& t.metadata == s.metadata
    &&& t.instructions == s.instructions
    &&& t.source_path@ == path
}

/// `r` is error `e` with its path set to `path`: for the frontmatter errors
/// always, and for missing fields and validation errors when `all` holds;
/// other errors unchanged.
pub open spec fn error_at(e: ParseError, path: Seq<char>, all: bool, r: ParseError) -> bool {
    match e {
        ParseError::MissingFrontmatter { .. } => r matches ParseError::MissingFrontmatter { path: q }
            && q@ == path,
        ParseError::InvalidFrontmatter { reason, .. } => r matches ParseError::InvalidFrontmatter {
            path: q,
            reason: rr,
        } && q@ == path && rr == reason,
        ParseError::MissingRequiredField { field, .. } => if all {
            r matches ParseError::MissingRequiredField { path: q, field: f } && q@ == path && f
                == field
        } else {
            r == e
        },
        ParseError::Validation { source, .. } => if all {
            r matches ParseError::Validation { path: q, source: v } && q@ == path && v == source
        } else {
            r == e
        },
        _ => r == e,
    }
}

/// xxHash64 of `data` with seed `seed`.
pub uninterp spec fn xxh64_digest(data: Seq<u8>, seed: u64) -> u64;

/// `xxhash_rust::xxh64::xxh64`, the 64-bit xxHash of `data` with `seed`:
/// the result is named by `xxh64_digest` of the bytes and the seed.
#[verifier::external_body]
fn xxh64(data: &[u8], seed: u64) -> (h: u64)
    ensures
        h == xxh64_digest(data@, seed),
{
    xxhash_rust::xxh64::xxh64(data, seed)
}

/// Content hash of a SKILL.md document (xxHash64 of its UTF-8 bytes, seed 0).
pub fn content_hash(content: &str) -> (h: u64)
    ensures
        h == xxh64_digest(content.spec_bytes(), 0),
{
    xxh64(content.as_bytes(), 0)
}

/// Parser for SKILL.md documents.
#[derive(Debug, Clone, Copy)]
pub struct SkillParser {
    /// If true, reject skills with an empty description.
    strict: bool,
}

impl Default for SkillParser {
    fn default() -> (r: Self)
        ensures
            !r.is_strict(),
    {
        SkillParser { strict: false }
    }
}

/// Index of the first occurrence of `needle` in `hay`.
pub fn find_chars(hay: &[char], needle: &[char]) -> (r: Option<usize>)
    ensures
        r matches Some(i) ==> Some(i as int) == first_occurrence(hay@, needle@) && i
            + needle@.len() <= hay@.len() && occurs_at(hay@, needle@, i as int),
        r is None ==> first_occurrence(hay@, needle@) is None,
{
    if needle.len() > hay.len() {
        return None;
    }
    let last = hay.len() - needle.len();
    let mut i: usize = 0;
    while i <= last
        invariant
            last + needle@.len() == hay@.len(),
            first_occurrence(hay@, needle@) == first_occurrence_from(hay@, needle@, i as int),
        decreases last + 1 - i,
    {
        if occurs_at_exec(hay, needle, i) {
            return Some(i);
        }
        if i == last {
            assert(first_occurrence_from(hay@, needle@, i + 1) is None);
            return None;
        }
        i += 1;
    }
    None
}

/// Where the text of `v` from `from` on starts once leading `\n` and `\r`
/// characters are skipped.
fn skip_newlines(v: &[char], from: usize) -> (u: usize)
    requires
        from <= v@.len(),
    ensures
        from <= u <= v@.len(),
        strip_leading_newlines(v@.skip(from as int)) == v@.skip(u as int),
{
    let mut u: usize = from;
    while u < v.len() && (v[u] == '\n' || v[u] == '\r')
        invariant
            from <= u <= v@.len(),
            strip_leading_newlines(v@.skip(from as int)) == strip_leading_newlines(
                v@.skip(u as int),
            ),
        decreases v.len() - u,
    {
        assert(v@.skip(u as int).drop_first() =~= v@.skip(u + 1));
        u += 1;
    }
    let ghost tail = v@.skip(u as int);
    assert(strip_leading_newlines(tail) == tail) by {
        if tail.len() > 0 {
            assert(tail[0] == v@[u as int]);
        }
    }
    u
}

/// Where the closing `---` line starts in `after`, the text after the
/// opening `---`.
fn find_closing(after: &[char]) -> (r: Option<usize>)
    ensures
        match closing_position(after@) {
            None => r is None,
            Some(p) => r matches Some(u) && u == p && p + 4 <= after@.len(),
        },
{
    let nl_marker: Vec<char> = vec!['\n', '-', '-', '-'];
    assert(nl_marker@ =~= "\n---"@) by {
        reveal_strlit("\n---");
    }
    let crlf_marker: Vec<char> = vec!['\r', '\n', '-', '-', '-'];
    assert(crlf_marker@ =~= "\r\n---"@) by {
        reveal_strlit("\r\n---");
    }
    let pos = match find_chars(after, nl_marker.as_slice()) {
        Some(p) => Some(p),
        None => find_chars(after, crlf_marker.as_slice()),
    };
    pos
}

/// `e` with its path set to `path` (see `error_at`).
fn relocate(e: ParseError, path: &str, all: bool) -> (r: ParseError)
    ensures
        error_at(e, path@, all, r),
{
    match e {
        ParseError::MissingFrontmatter { .. } => ParseError::MissingFrontmatter { path: owned(path) },
        ParseError::InvalidFrontmatter { reason, .. } => ParseError::InvalidFrontmatter {
            path: owned(path),
            reason,
        },
        ParseError::MissingRequiredField { path: q, field } => {
            if all {
                ParseError::MissingRequiredField { path: owned(path), field }
            } else {
                ParseError::MissingRequiredField { path: q, field }
            }
        },
        ParseError::Validation { path: q, source } => {
            if all {
                ParseError::Validation { path: owned(path), source }
            } else {
                ParseError::Validation { path: q, source }
            }
        },
        other => other,
    }
}

impl SkillParser {
    /// Strict mode.
    pub closed spec fn is_strict(&self) -> bool {
        self.strict
    }

    /// A parser with strict mode off.
    pub fn new() -> (p: Self)
        ensures
            !p.is_strict(),
    {
        SkillParser { strict: false }
    }

    /// A parser with strict mode on.
    pub fn strict() -> (p: Self)
        ensures
            p.is_strict(),
    {
        SkillParser { strict: true }
    }

    /// The parser with strict mode set as given.
    pub fn with_strict(self, strict: bool) -> (p: Self)
        ensures
            p.is_strict() == strict,
    {
        SkillParser { strict }
    }

    /// Splits a document into its (trimmed) frontmatter and its body.
    pub fn split_frontmatter(&self, content: &str) -> (r: Result<(String, String), ParseError>)
        ensures
            match frontmatter_split(content@) {
                None => r matches Err(ParseError::MissingFrontmatter { path }) && path@.len()
                    == 0,
                Some((fm, body)) => r matches Ok((f, b)) && f@ == fm && b@ == body,
            },
    {
        let v = chars_of(content);
        let i = trim_start_index(v.as_slice());
        let rest = slice_chars(v.as_slice(), i, v.len());
        let open_marker: Vec<char> = vec!['-', '-', '-'];
        assert(open_marker@ =~= "---"@) by {
            reveal_strlit("---");
        }
        if !starts_with(rest.as_slice(), open_marker.as_slice()) {
            return Err(ParseError::MissingFrontmatter { path: String::new() });
        }
        let after = slice_chars(rest.as_slice(), 3, rest.len());
        assert(after@ =~= rest@.skip(3));
        match find_closing(after.as_slice()) {
            None => Err(ParseError::MissingFrontmatter { path: String::new() }),
            Some(p) => {
                let head = slice_chars(after.as_slice(), 0, p);
                assert(head@ =~= after@.take(p as int));
                let fm = trim_chars(head.as_slice());
                let u = skip_newlines(after.as_slice(), p + 4);
                let ghost tail = after@.skip(u as int);
                let body = slice_chars(after.as_slice(), u, after.len());
                assert(body@ =~= tail);
                Ok((string_from(fm.as_slice()), string_from(body.as_slice())))
            },
        }
    }

    /// Builds a skill from decoded frontmatter and a body, validating the
    /// name and the description.
    pub fn build_skill(&self, raw: RawFrontmatter, body: String) -> (r: Result<Skill, ParseError>)
        ensures
            skill_built_from(self.is_strict(), raw, body@, r),
    {
        let ghost raw0 = raw;
        let name = match SkillName::new(raw.name.as_str()) {
            Ok(n) => n,
            Err(e) => {
                return Err(ParseError::Validation { path: String::new(), source: e });
            },
        };
        if raw.description.as_str().is_empty() {
            if self.strict {
                return Err(
                    ParseError::Validation {
                        path: String::new(),
                        source: ValidationError::EmptyDescription,
                    },
                );
            }
        }
        let dlen = raw.description.as_str().as_bytes().len();
        if dlen > MAX_DESCRIPTION_LEN {
            return Err(
                ParseError::Validation {
                    path: String::new(),
                    source: ValidationError::DescriptionTooLong { len: dlen },
                },
            );
        }
        Ok(
            Skill {
                name,
                description: raw.description,
                license: raw.license,
                compatibility: raw.compatibility,
                metadata: StrMap::from_pairs(raw.metadata),
                instructions: body,
                source_path: String::new(),
            },
        )
    }

    /// Parses SKILL.md content.  The frontmatter text is decoded by
    /// `decode` (a YAML decoder); its error message becomes the reason of
    /// `InvalidFrontmatter`.
    pub fn parse_str<F: Fn(&str) -> Result<RawFrontmatter, String>>(
        &self,
        content: &str,
        decode: F,
    ) -> (r: Result<Skill, ParseError>)
        requires
            forall|x: &str| call_requires(decode, (x,)),
        ensures
            parse_outcome(self.is_strict(), content@, decode, r),
    {
        let (fm, body) = match self.split_frontmatter(content) {
            Ok(p) => p,
            Err(e) => {
                return Err(e);
            },
        };
        let x: &str = fm.as_str();
        let d = decode(x);
        match d {
            Err(reason) => {
                assert(call_ensures(decode, (x,), Err::<RawFrontmatter, String>(reason)));
                Err(ParseError::InvalidFrontmatter { path: String::new(), reason })
            },
            Ok(raw) => {
                let ghost raw0 = raw;
                let r = self.build_skill(raw, body);
                assert(call_ensures(decode, (x,), Ok::<RawFrontmatter, String>(raw0)));
                r
            },
        }
    }

    /// Parses the content of the SKILL.md file at `path`: as `parse_str`,
    /// with `path` set as the skill's source path and in the frontmatter,
    /// missing-field and validation errors.
    pub fn parse_content_at<F: Fn(&str) -> Result<RawFrontmatter, String>>(
        &self,
        path: &str,
        content: &str,
        decode: F,
    ) -> (r: Result<Skill, ParseError>)
        requires
            forall|x: &str| call_requires(decode, (x,)),
        ensures
            exists|p: Result<Skill, ParseError>|
                {
                    &&& parse_outcome(self.is_strict(), content@, decode, p)
                    &&& match p {
                        Ok(s) => r matches Ok(t) && skill_at(s, path@, t),
                        Err(e) => r matches Err(f) && error_at(e, path@, true, f),
                    }
                },
    {
        let p = self.parse_str(content, decode);
        let ghost p0 = p;
        match p {
            Ok(mut skill) => {
                skill.source_path = owned(path);
                Ok(skill)
            },
            Err(e) => Err(relocate(e, path, true)),
        }
    }

    /// Metadata of the SKILL.md file at `path` with content `content`: the
    /// content hash, then `parse_str`, with `path` set in the frontmatter
    /// errors, and the skill's metadata with `path` as its source path.
    pub fn metadata_from_content<F: Fn(&str) -> Result<RawFrontmatter, String>>(
        &self,
        path: &str,
        content: &str,
        decode: F,
    ) -> (r: Result<SkillMetadata, ParseError>)
        requires
            forall|x: &str| call_requires(decode, (x,)),
        ensures
            exists|p: Result<Skill, ParseError>|
                {
                    &&& parse_outcome(self.is_strict(), content@, decode, p)
                    &&& match p {
                        Ok(s) => r matches Ok(m) && {
                            &&& m.name@ == s.name@
                            &&& s.name.wf() ==> m.name.wf()
                            &&& m.description@ == s.description@
                            &&& views(m.tags@) == metadata_list(s.metadata.view(), "tags"@)
                            &&& views(m.triggers@) == metadata_list(
                                s.metadata.view(),
                                "triggers"@,
                            )
                            &&& m.source_path@ == path@
                            &&& m.content_hash == xxh64_digest(content.spec_bytes(), 0)
                            &&& m.estimated_tokens == token_estimate(s.instructions@)
                        },
                        Err(e) => r matches Err(f) && error_at(e, path@, false, f),
                    }
                },
    {
        let hash = content_hash(content);
        let p = self.parse_str(content, decode);
        let ghost p0 = p;
        match p {
            Ok(mut skill) => {
                skill.source_path = owned(path);
                let m = SkillMetadata::from_skill(&skill, hash);
                assert(parse_outcome(self.is_strict(), content@, decode, p0));
                Ok(m)
            },
            Err(e) => {
                let f = relocate(e, path, false);
                assert(parse_outcome(self.is_strict(), content@, decode, p0));
                Err(f)
            },
        }
    }
}

/// The first occurrence of `needle` at or after `i` is at `q` when it
/// occurs at `q` and nowhere between `i` and `q`.
proof fn lemma_first_occurrence_at(hay: Seq<char>, needle: Seq<char>, i: int, q: int)
    requires
        0 <= i <= q,
        occurs_at(hay, needle, q),
        forall|j: int| i <= j < q ==> !occurs_at(hay, needle, j),
    ensures
        first_occurrence_from(hay, needle, i) == Some(q),
    decreases q - i,
{
    if i < q {
        lemma_first_occurrence_at(hay, needle, i + 1, q);
    }
}

/// A document written as `---`, a line break, a frontmatter, a line
/// break, `---`, a line break and a body is split back into that
/// frontmatter and that body, when the frontmatter has no white space at
/// either end and no line of it starts with `---`, and the body does not
/// start with a line break.
pub proof fn law_frontmatter_round_trip(fm: Seq<char>, body: Seq<char>)
    requires
        trim_spec(fm) == fm,
        !contains_spec(seq!['\n'] + fm, "\n---"@),
        body.len() == 0 || (body[0] != '\n' && body[0] != '\r'),
    ensures
        frontmatter_split("---\n"@ + fm + "\n---\n"@ + body) == Some((fm, body)),
{
    reveal_strlit("---\n");
    reveal_strlit("\n---\n");
    reveal_strlit("\n---");
    reveal_strlit("---");
    let content = "---\n"@ + fm + "\n---\n"@ + body;
    let h = seq!['\n'] + fm;
    let marker = "\n---"@;
    assert(!is_whitespace_spec('-'));
    assert(content[0] == '-');
    assert(trim_start_spec(content) == content);
    assert(content.subrange(0, 3) =~= "---"@);
    let a = content.skip(3);
    assert(a =~= h + "\n---\n"@ + body);
    let q = h.len() as int;
    assert(a.subrange(q, q + 4) =~= marker);
    assert forall|j: int| 0 <= j < q implies !occurs_at(a, marker, j) by {
        if j + 4 <= q {
            assert(a.subrange(j, j + 4) =~= h.subrange(j, j + 4));
            if occurs_at(a, marker, j) {
                assert(occurs_at(h, marker, j));
            }
        } else {
            assert(a[q] == '\n');
            assert(a.subrange(j, j + 4)[q - j] == '\n');
            assert(marker[q - j] == '-');
        }
    }
    lemma_first_occurrence_at(a, marker, 0, q);
    assert(closing_position(a) == Some(q));
    assert(a.take(q) =~= h);
    assert(h.drop_first() =~= fm);
    assert(trim_start_spec(h) == trim_start_spec(fm));
    assert(trim_spec(a.take(q)) == fm);
    let rest = a.skip(q + 4);
    assert(rest =~= seq!['\n'] + body);
    assert(rest.drop_first() =~= body);
    assert(strip_leading_newlines(body) == body);
    assert(strip_leading_newlines(rest) == body);
}

} // verus!
