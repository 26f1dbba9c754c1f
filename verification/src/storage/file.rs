use vstd::prelude::*;

use super::placeholder::PlaceHolder;

verus! {

/// A stored shell-command template with its metadata and the placeholder
/// list extracted from `content`.
#[derive(Debug, Clone)]
pub struct Snippet {
    pub name: String,
    pub content: String,
    pub note: String,
    pub placeholders: Vec<PlaceHolder>,
}

/// The outcome of picking a snippet: at most one selection.
pub struct Snipster {
    pub snippet: Option<Snippet>,
}

} // verus!
