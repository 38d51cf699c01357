//! The whole-number side of embedding providers and the embedding index:
//! which texts are embedded for each skill, the vector sizes of the known
//! models, and how an input list and an HTTP status turn into errors.
//!
//! The vectors themselves are floating point and handled by the program.

use vstd::prelude::*;
use crate::error::EmbedError;
use crate::schema::SkillMetadata;
use crate::text::{join_with, joined, owned, starts_with_spec, str_eq, views};

verus! {

/// The four texts embedded for a skill: its description; its triggers
/// joined by `", "` (the description when it has none); its tags joined
/// the same way (the description when it has none); its description again,
/// standing for examples.
pub open spec fn component_texts(m: SkillMetadata) -> Seq<Seq<char>> {
    let d = m.description@;
    seq![
        d,
        if m.triggers@.len() == 0 {
            d
        } else {
            joined(views(m.triggers@), ", "@)
        },
        if m.tags@.len() == 0 {
            d
        } else {
            joined(views(m.tags@), ", "@)
        },
        d,
    ]
}

/// The texts of a list with `", "` between each two, or `fallback` when
/// the list is empty.
fn joined_or(parts: &Vec<String>, fallback: &String) -> (r: String)
    ensures
        r@ == (if parts@.len() == 0 {
            fallback@
        } else {
            joined(views(parts@), ", "@)
        }),
{
    if parts.len() == 0 {
        fallback.clone()
    } else {
        join_with(parts, ", ")
    }
}

/// The texts to embed for a catalog: four per skill, in catalog order (see
/// `component_texts`).
pub fn index_texts(catalog: &[SkillMetadata]) -> (r: Vec<String>)
    requires
        4 * catalog@.len() <= usize::MAX,
    ensures
        r@.len() == 4 * catalog@.len(),
        forall|i: int, j: int|
            0 <= i < catalog@.len() && 0 <= j < 4 ==> (#[trigger] r@[4 * i + j])@ == component_texts(
                catalog@[i],
            )[j],
{
    let mut out: Vec<String> = Vec::new();
    let mut i: usize = 0;
    while i < catalog.len()
        invariant
            i <= catalog@.len(),
            4 * catalog@.len() <= usize::MAX,
            out@.len() == 4 * i,
            forall|a: int, j: int|
                0 <= a < i && 0 <= j < 4 ==> (#[trigger] out@[4 * a + j])@ == component_texts(catalog@[a])[j],
        decreases catalog.len() - i,
    {
        let m = &catalog[i];
        let ghost o0 = out@;
        let d0 = m.description.clone();
        let t = joined_or(&m.triggers, &m.description);
        let g = joined_or(&m.tags, &m.description);
        let d1 = m.description.clone();
        out.push(d0);
        out.push(t);
        out.push(g);
        out.push(d1);
        proof {
            assert forall|a: int, j: int| 0 <= a < i + 1 && 0 <= j < 4 implies (#[trigger] out@[4 * a + j])@
                == component_texts(catalog@[a])[j] by {
                if a < i {
                    assert(out@[4 * a + j] == o0[4 * a + j]);
                } else {
                    assert(a == i);
                }
            }
        }
        i += 1;
    }
    out
}

/// The vector size of an OpenAI embedding model (1536 when unknown).
pub open spec fn openai_dims(model: Seq<char>) -> usize {
    if model == "text-embedding-3-large"@ {
        3072
    } else {
        1536
    }
}

/// The vector size of an OpenAI embedding model: 3072 for
/// `text-embedding-3-large`, 1536 for the others.
pub fn openai_dimensions(model: &str) -> (r: usize)
    ensures
        r == openai_dims(model@),
{
    if str_eq(model, "text-embedding-3-large") {
        3072
    } else {
        1536
    }
}

/// Whether requests to an OpenAI model name the vector size: only the
/// `text-embedding-3` models take it.
pub fn sends_dimensions(model: &str) -> (r: bool)
    ensures
        r == starts_with_spec(model@, "text-embedding-3"@),
{
    let m = crate::text::chars_of(model);
    let p = crate::text::chars_of("text-embedding-3");
    crate::text::starts_with(m.as_slice(), p.as_slice())
}

/// The vector size of a Cohere embedding model (1024 when unknown).
pub open spec fn cohere_dims(model: Seq<char>) -> usize {
    if model == "embed-english-light-v3.0"@ || model == "embed-multilingual-light-v3.0"@ {
        384
    } else {
        1024
    }
}

/// The vector size of a Cohere embedding model: 384 for the light
/// models, 1024 for the others.
pub fn cohere_dimensions(model: &str) -> (r: usize)
    ensures
        r == cohere_dims(model@),
{
    if str_eq(model, "embed-english-light-v3.0") || str_eq(model, "embed-multilingual-light-v3.0") {
        384
    } else {
        1024
    }
}

/// Whether some text of the input is empty.
pub open spec fn has_empty_text(texts: Seq<Seq<char>>) -> bool {
    exists|i: int| 0 <= i < texts.len() && texts[i].len() == 0
}

/// The error of an input list: `EmptyInput` when a text is empty.
pub fn input_error(texts: &[&str]) -> (r: Option<EmbedError>)
    ensures
        r is Some <==> has_empty_text(Seq::new(texts@.len(), |i: int| texts@[i]@)),
        r matches Some(e) ==> e is EmptyInput,
{
    let ghost ts = Seq::new(texts@.len(), |i: int| texts@[i]@);
    let mut i: usize = 0;
    while i < texts.len()
        invariant
            i <= texts@.len(),
            ts == Seq::new(texts@.len(), |k: int| texts@[k]@),
            forall|k: int| 0 <= k < i ==> ts[k].len() != 0,
        decreases texts.len() - i,
    {
        if texts[i].unicode_len() == 0 {
            assert(ts[i as int].len() == 0);
            return Some(EmbedError::EmptyInput);
        }
        i += 1;
    }
    None
}

/// The error an HTTP response status of an embedding API stands for.
/// With `keyed` (the OpenAI and Cohere services) 401 is an invalid key and
/// 429 a rate limit to retry after 60 seconds; any other status outside
/// 200..=299 is an API error with the body text as its message.
pub fn status_error(status: u16, keyed: bool, message: String) -> (r: Option<EmbedError>)
    ensures
        keyed && status == 401 ==> r == Some(EmbedError::InvalidApiKey),
        keyed && status == 429 ==> r == Some(EmbedError::RateLimit { retry_after_secs: 60 }),
        !(keyed && (status == 401 || status == 429)) && 200 <= status <= 299 ==> r is None,
        !(keyed && (status == 401 || status == 429)) && !(200 <= status <= 299) ==> (r matches Some(
            EmbedError::Api { status: s, message: m },
        ) && s == status && m@ == message@),
{
    if keyed && status == 401 {
        Some(EmbedError::InvalidApiKey)
    } else if keyed && status == 429 {
        Some(EmbedError::RateLimit { retry_after_secs: 60 })
    } else if 200 <= status && status <= 299 {
        None
    } else {
        Some(EmbedError::Api { status, message })
    }
}

/// The positions of the texts the cache did not hold (`hit[i]` says the
/// cache held text `i`), in order: the texts sent to the service.
pub open spec fn cache_misses_spec(hit: Seq<bool>) -> Seq<int>
    decreases hit.len(),
{
    if hit.len() == 0 {
        Seq::empty()
    } else {
        let r = cache_misses_spec(hit.drop_last());
        if hit.last() {
            r
        } else {
            r.push(hit.len() - 1)
        }
    }
}

/// Where each text's embedding comes from: `None` for a text the cache
/// held; otherwise the position of its embedding in the service's answer
/// (how many texts before it were sent too).
pub open spec fn fetched_slot(hit: Seq<bool>, i: int) -> Option<int> {
    if hit[i] {
        None
    } else {
        Some(cache_misses_spec(hit.take(i)).len() as int)
    }
}

/// The positions of the texts to send to the service (see
/// `cache_misses_spec`).
pub fn cache_misses(hit: &Vec<bool>) -> (r: Vec<usize>)
    ensures
        r@.len() == cache_misses_spec(hit@).len(),
        forall|k: int| 0 <= k < r@.len() ==> r@[k] as int == #[trigger] cache_misses_spec(hit@)[k],
{
    let mut out: Vec<usize> = Vec::new();
    let mut i: usize = 0;
    while i < hit.len()
        invariant
            i <= hit@.len(),
            out@.len() == cache_misses_spec(hit@.take(i as int)).len(),
            forall|k: int| 0 <= k < out@.len() ==> out@[k] as int == #[trigger] cache_misses_spec(hit@.take(i as int))[k],
        decreases hit.len() - i,
    {
        assert(hit@.take(i + 1).drop_last() =~= hit@.take(i as int));
        if !hit[i] {
            out.push(i);
        }
        i += 1;
    }
    assert(hit@.take(i as int) =~= hit@);
    out
}

/// Where each text's embedding comes from (see `fetched_slot`).
pub fn fetched_slots(hit: &Vec<bool>) -> (r: Vec<Option<usize>>)
    ensures
        r@.len() == hit@.len(),
        forall|i: int|
            0 <= i < hit@.len() ==> (match #[trigger] r@[i] {
                Some(k) => fetched_slot(hit@, i) == Some(k as int),
                None => fetched_slot(hit@, i) is None,
            }),
{
    let mut out: Vec<Option<usize>> = Vec::new();
    let mut sent: usize = 0;
    let mut i: usize = 0;
    while i < hit.len()
        invariant
            i <= hit@.len(),
            out@.len() == i,
            sent as int == cache_misses_spec(hit@.take(i as int)).len(),
            sent <= i,
            forall|j: int|
                0 <= j < i ==> (match #[trigger] out@[j] {
                    Some(k) => fetched_slot(hit@, j) == Some(k as int),
                    None => fetched_slot(hit@, j) is None,
                }),
        decreases hit.len() - i,
    {
        assert(hit@.take(i + 1).drop_last() =~= hit@.take(i as int));
        if hit[i] {
            out.push(None);
        } else {
            out.push(Some(sent));
            sent += 1;
        }
        i += 1;
    }
    out
}

} // verus!
