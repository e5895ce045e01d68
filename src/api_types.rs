//! Request and response shapes of the remote translation API.
use vstd::prelude::*;

verus! {

/// Output format that the service is asked to produce.
#[derive(Clone, Copy, Debug, PartialEq, Eq, Structural)]
pub enum Format {
    Text,
    Html,
}

impl Format {
    /// The name of the format on the wire.
    pub open spec fn wire_name(self) -> Seq<char> {
        match self {
            Format::Text => "text"@,
            Format::Html => "html"@,
        }
    }

    pub fn as_str(&self) -> (r: &'static str)
        ensures
            r@ == self.wire_name(),
    {
        match self {
            Format::Text => "text",
            Format::Html => "html",
        }
    }
}

/// Body of one translation request.
#[derive(Debug)]
pub struct Query {
    pub q: String,
    pub source: String,
    pub target: String,
    pub alternatives: u32,
    pub format: Option<Format>,
    pub api_key: Option<String>,
}

impl Query {
    /// A request for one line, asking for no alternatives and leaving the
    /// format to the service.
    pub fn new(q: String, source: String, target: String, api_key: Option<String>) -> (r: Query)
        ensures
            r.q == q,
            r.source == source,
            r.target == target,
            r.alternatives == 0,
            r.format.is_none(),
            r.api_key == api_key,
    {
        Query { q, source, target, alternatives: 0, format: None, api_key }
    }
}

/// Language that the service detected in the source text.
#[derive(Clone, Debug)]
pub struct DetectedLanguage {
    pub confidence: u8,
    pub language: String,
}

/// A successful answer of the service.
#[derive(Clone, Debug)]
pub struct Translation {
    pub translated_text: String,
    pub alternatives: Option<Vec<String>>,
    pub detected_language: Option<DetectedLanguage>,
}

/// An answer in which the service reports an error.
#[derive(Clone, Debug)]
pub struct TranslationError {
    pub error: String,
}

/// An answer of the service: on the wire the two variants carry no tag and are
/// told apart by the fields present.
#[derive(Debug)]
pub enum TranslationResult {
    Success(Translation),
    Failure(TranslationError),
}

impl TranslationResult {
    /// Tells the variant of an untagged answer from the fields it carries: a
    /// document with an `error` field is a failure, else one with a
    /// `translatedText` field is a success, else it is neither.
    pub fn from_fields(
        error: Option<String>,
        translated_text: Option<String>,
        alternatives: Option<Vec<String>>,
        detected_language: Option<DetectedLanguage>,
    ) -> (r: Option<TranslationResult>)
        ensures
            error.is_some() ==> r == Some(
                TranslationResult::Failure(TranslationError { error: error.unwrap() }),
            ),
            error.is_none() && translated_text.is_some() ==> r == Some(
                TranslationResult::Success(
                    (Translation {
                        translated_text: translated_text.unwrap(),
                        alternatives,
                        detected_language,
                    }),
                ),
            ),
            error.is_none() && translated_text.is_none() ==> r.is_none(),
    {
        match error {
            Some(e) => Some(TranslationResult::Failure(TranslationError { error: e })),
            None => match translated_text {
                Some(t) => Some(
                    TranslationResult::Success(
                        Translation { translated_text: t, alternatives, detected_language },
                    ),
                ),
                None => None,
            },
        }
    }
}

} // verus!
