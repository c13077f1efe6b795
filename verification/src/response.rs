//! Responses that were read to the end before they are returned.

use http::header::HeaderMap;
use http::{Extensions, StatusCode, Version};
use reqwest::{Response, ResponseBuilderExt, Url};

use vstd::prelude::*;

use crate::headers::{header_entries, status_number, Entries};

verus! {

/// A response, as it is returned to the caller.
#[verifier::external_type_specification]
#[verifier::external_body]
pub struct ExResponse(reqwest::Response);

/// The extensions of a response, values of arbitrary types.
#[verifier::external_type_specification]
#[verifier::external_body]
pub struct ExExtensions(http::Extensions);

/// What a response is made of.
pub struct ResponseParts {
    pub status: u16,
    pub version: Version,
    pub headers: Entries,
    pub url: Url,
    pub extensions: Extensions,
    pub body: Seq<u8>,
}

/// What the `status`, `version`, `headers`, `url` and `extensions` of a `Response` return, and the
/// bytes that its body yields. The mark that `ResponseBuilderExt::url` leaves among the extensions
/// of an `http::Response` is taken for the URL, not for one of the extensions: its type is private
/// to `reqwest`, so that nothing else can look it up.
pub uninterp spec fn response_parts(response: Response) -> ResponseParts;

/// A response that was read to the end.
pub struct Buffered {
    /// The status.
    pub status: StatusCode,
    /// The HTTP version.
    pub version: Version,
    /// The URL that it came from.
    pub url: Url,
    /// The headers.
    pub headers: HeaderMap,
    /// The extensions.
    pub extensions: Extensions,
    /// The whole body.
    pub body: Vec<u8>,
}

impl Buffered {
    /// What the response is made of.
    pub open spec fn parts(&self) -> ResponseParts {
        ResponseParts {
            status: status_number(self.status),
            version: self.version,
            headers: header_entries(self.headers),
            url: self.url,
            extensions: self.extensions,
            body: self.body@,
        }
    }
}

/// `Response::from` of an `http::Response` that was built of the parts: a response with the same
/// status, version, headers, URL, extensions and body.
#[verifier::external_body]
pub(crate) fn rebuild(buffered: Buffered) -> (response: Response)
    ensures
        response_parts(response) == buffered.parts(),
{
    let mut rebuilt = http::Response::builder()
        .status(buffered.status)
        .version(buffered.version)
        .url(buffered.url)
        .body(buffered.body)
        .expect("status and version come from a received response");
    *rebuilt.headers_mut() = buffered.headers;
    let url = std::mem::replace(rebuilt.extensions_mut(), buffered.extensions);
    rebuilt.extensions_mut().extend(url);
    Response::from(rebuilt)
}

} // verus!
