//! Reporting rules for the binary-object-to-JSON conversion.
//!
//! Records tagged as objects carry bytes in the external object format; an
//! outside library parses them and serialises the parsed object.  That
//! library can panic or fail to return on crafted byte strings that its own
//! parser admits, so no contract this crate could state of a direct call
//! would be true of it; the caller performs the parse and serialisation and
//! hands the outcome here — `None` for a parse failure, otherwise the
//! serialiser's text.  This module owns the reporting the engine
//! guarantees: a parse failure and an empty serialisation are each
//! surfaced as a distinct error, and a successful conversion is never
//! empty.

use vstd::prelude::*;

verus! {

/// Why a conversion produced no JSON.
#[derive(Clone, Copy, PartialEq, Eq, Structural, Debug)]
pub enum ConvertError {
    /// The bytes do not parse as an object.
    ParseFailure,
    /// The bytes parsed, but serialising the object produced no text.
    JsonFailure,
}

/// Accepts or rejects what the serialiser answered: non-empty JSON text
/// passes through unchanged, and the empty string — the serialiser's
/// failure signal — becomes the distinct conversion error, so no caller
/// ever takes an empty result for JSON.
pub fn accept_json(json: String) -> (r: Result<String, ConvertError>)
    ensures
        json@.len() > 0 ==> (r matches Ok(s) && s@ == json@),
        json@.len() == 0 ==> r == Err::<String, ConvertError>(ConvertError::JsonFailure),
{
    if json.as_str().is_empty() {
        Err(ConvertError::JsonFailure)
    } else {
        Ok(json)
    }
}

/// Classifies a conversion outcome.  A failed parse — `None` — is reported
/// as exactly the parse failure; a parse whose serialisation came back
/// empty as exactly the distinct JSON failure; and any other outcome
/// passes through unchanged.  Success therefore always carries the
/// serialiser's own non-empty text, never silently partial output, and
/// each error names which stage failed.
pub fn classify_conversion(outcome: Option<String>) -> (r: Result<String, ConvertError>)
    ensures
        r == Err::<String, ConvertError>(ConvertError::ParseFailure) <==> outcome is None,
        r == Err::<String, ConvertError>(ConvertError::JsonFailure) <==> (outcome matches Some(s)
            && s@.len() == 0),
        r matches Ok(t) <==> (outcome matches Some(s) && s@.len() > 0),
        r matches Ok(t) ==> (outcome matches Some(s) && t@ == s@),
{
    match outcome {
        None => Err(ConvertError::ParseFailure),
        Some(json) => accept_json(json),
    }
}

} // verus!
