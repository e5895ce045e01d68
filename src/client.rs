//! What the translation client decides around its one request per line.
use vstd::prelude::*;
use crate::api_types::{Query, TranslationResult};

verus! {

/// Why the translation of one line failed.
#[derive(Clone, Debug)]
pub enum TranslationFailure {
    /// The endpoint could not be reached, or its answer could not be read.
    Transport(String),
    /// The service answered with an error message.
    Remote(String),
    /// The answer carried neither an error nor a translated text.
    Malformed,
}

/// The text that a line becomes, given the answer of the service for it: an
/// empty line stays empty and is never sent.
pub open spec fn translated_text(source: Seq<char>, answer: Seq<char>) -> Seq<char> {
    if source.len() == 0 {
        Seq::empty()
    } else {
        answer
    }
}

/// A character with an ASCII capital made small.
pub open spec fn ascii_lower(c: char) -> char {
    if 'A' <= c && c <= 'Z' {
        ((c as u32) + 32) as char
    } else {
        c
    }
}

/// Relies on str::to_ascii_lowercase: each ASCII capital becomes its small
/// letter, every other character stays as it is.
#[verifier::external_body]
fn ascii_lowercase(s: &str) -> (r: String)
    ensures
        r@ == s@.map_values(|c: char| ascii_lower(c)),
{
    s.to_ascii_lowercase()
}

/// The form of a language code that is sent to the service.
pub fn normalize_language(code: &str) -> (r: String)
    ensures
        r@ == code@.map_values(|c: char| ascii_lower(c)),
{
    ascii_lowercase(code)
}

/// The request for one line, or `None` for an empty line, which is translated
/// to the empty text without asking the service.
pub fn line_query(text: String, source: String, target: String, api_key: Option<String>) -> (r:
    Option<Query>)
    ensures
        text@.len() == 0 <==> r.is_none(),
        r matches Some(q) ==> q.q == text && q.source == source && q.target == target
            && q.alternatives == 0 && q.format.is_none() && q.api_key == api_key,
{
    if text.as_str().unicode_len() == 0 {
        None
    } else {
        Some(Query::new(text, source, target, api_key))
    }
}

/// The outcome of one request, given the decoded answer (`None` where the
/// answer had neither shape).
pub fn answer_outcome(answer: Option<TranslationResult>) -> (r: Result<String, TranslationFailure>)
    ensures
        answer.is_none() ==> r == Err::<String, TranslationFailure>(TranslationFailure::Malformed),
        answer matches Some(TranslationResult::Failure(e)) ==> r == Err::<String, TranslationFailure>(
            TranslationFailure::Remote(e.error),
        ),
        answer matches Some(TranslationResult::Success(t)) ==> r == Ok::<String, TranslationFailure>(
            t.translated_text,
        ),
{
    match answer {
        None => Err(TranslationFailure::Malformed),
        Some(TranslationResult::Failure(e)) => Err(TranslationFailure::Remote(e.error)),
        Some(TranslationResult::Success(t)) => Ok(t.translated_text),
    }
}

} // verus!
