//! The bodies of the service's replies.

use vstd::prelude::*;

verus! {

/// A reply made of a status and a fixed message.
#[derive(Clone, Copy, Debug, PartialEq, Eq)]
pub struct GenericResponse<'a> {
    /// The HTTP status code, in decimal digits.
    pub status: &'a str,
    /// What the status means for the caller.
    pub message: &'a str,
}

/// A reply made of a status and a message that are put together per request.
#[derive(Debug, PartialEq, Eq)]
pub struct GenericStringResponse {
    /// The HTTP status code, in decimal digits.
    pub status: String,
    /// What the status means for the caller.
    pub message: String,
}

/// The reply to a successful lookup: where the chosen image is found.
#[derive(Debug, PartialEq, Eq)]
pub struct UrlResponse<'a> {
    /// The HTTP status code, in decimal digits.
    pub status: &'a str,
    /// The full address of the image.
    pub url: String,
}

} // verus!
