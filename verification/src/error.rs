//! Errors of the request parser. Parse failures abort the connection they
//! occur on; they never become wire responses.

use vstd::prelude::*;

verus! {

/// Why a request could not be parsed.
#[derive(Debug, PartialEq, Eq, Structural, Clone, Copy)]
pub enum HttpError {
    /// The request line held no token at all.
    MissingMethod,
    /// The request line ended after the method token.
    MissingPath,
    /// The request line ended after the path token.
    MissingVersion,
    /// The method token is neither `GET` nor `POST` (ignoring case).
    UnsupportedMethod,
    /// A header line holds no `:` separator.
    HeaderMissingColon,
    /// The request head is not valid UTF-8.
    InvalidUtf8,
    /// The input ended before the declared body length was reached.
    UnexpectedEnd,
}

} // verus!
