//! The errors of template processing.
use vstd::prelude::*;

verus! {

/// What went wrong while processing a template; each variant carries the
/// message of the underlying failure.
#[derive(Debug)]
pub enum Error {
    CssParseError(String),
    CssMinifyError(String),
    CssPrintError(String),
}

impl Error {
    /// The message that the error carries.
    pub open spec fn spec_message(&self) -> Seq<char> {
        match self {
            Error::CssParseError(m) => m@,
            Error::CssMinifyError(m) => m@,
            Error::CssPrintError(m) => m@,
        }
    }

    /// Whether the CSS could not be parsed.
    pub fn is_parse_error(&self) -> (r: bool)
        ensures
            r == (self is CssParseError),
    {
        match self {
            Error::CssParseError(_) => true,
            _ => false,
        }
    }

    /// The text of the error, which is its message.
    pub fn message(&self) -> (r: String)
        ensures
            r@ == self.spec_message(),
    {
        match self {
            Error::CssParseError(m) => m.clone(),
            Error::CssMinifyError(m) => m.clone(),
            Error::CssPrintError(m) => m.clone(),
        }
    }
}

} // verus!
