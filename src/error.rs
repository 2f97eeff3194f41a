use vstd::prelude::*;

verus! {

/// The error that serde_json reports when text is not valid JSON for the
/// expected shape; carried through unchanged.
#[verifier::external_type_specification]
#[verifier::external_body]
pub struct ExJsonError(serde_json::Error);

/// Errors of the button registry, the tab tracker and stored state.
#[derive(Debug)]
pub enum AppError {
    ButtonNotFound(String),
    TabNotFound(String),
    CannotCloseLastTab,
    Json(serde_json::Error),
}

} // verus!
