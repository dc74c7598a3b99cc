//! The error taxonomy of the render pipeline.

use vstd::prelude::*;

verus! {

/// Why a page could not be rendered.
///
/// `NotFound` covers a missing source file, an ignored slug and empty source
/// content; `Filtered` is the distinct non-error signal for a page excluded
/// by a metadata filter (for example a draft); `Parse` is malformed
/// frontmatter; `Crypto` is a failure while encrypting a protected page.
#[derive(Debug, Clone, PartialEq, Eq)]
pub enum RenderError {
    NotFound,
    Filtered,
    Parse,
    Crypto,
}

impl RenderError {
    /// A short human-readable tag for logs and test output.
    pub fn message(&self) -> (r: &'static str)
        ensures
            self is NotFound ==> r@ == "not found"@,
            self is Filtered ==> r@ == "filtered"@,
            self is Parse ==> r@ == "malformed frontmatter"@,
            self is Crypto ==> r@ == "encryption failed"@,
    {
        match self {
            RenderError::NotFound => "not found",
            RenderError::Filtered => "filtered",
            RenderError::Parse => "malformed frontmatter",
            RenderError::Crypto => "encryption failed",
        }
    }
}

} // verus!
