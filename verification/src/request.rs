//! The request types of the `reqwest` crate, and what they hold.

use std::time::Duration;

use http::header::HeaderMap;
use reqwest::{Request, Url};

use vstd::prelude::*;
use vstd::utf8::encode_utf8;

use crate::headers::header_entries;

verus! {

/// A request that can be sent.
#[verifier::external_type_specification]
#[verifier::external_body]
pub struct ExRequest(reqwest::Request);

/// The URL of a request.
#[verifier::external_type_specification]
#[verifier::external_body]
pub struct ExUrl(reqwest::Url);

/// The HTTP version of a request.
#[verifier::external_type_specification]
#[verifier::external_body]
pub struct ExVersion(http::Version);

/// What a request is made of besides its headers and its URL: the results of `Request::method`, of
/// `Request::body` as bytes, of `Request::timeout` and of `Request::version`.
pub struct RequestRest {
    pub method: Seq<char>,
    pub body: Option<Seq<u8>>,
    pub timeout: Option<Duration>,
    pub version: http::Version,
}

/// What a URL is made of besides its query: the bytes before the query, and the fragment.
pub struct UrlFrame {
    pub before: Seq<u8>,
    pub fragment: Option<Seq<u8>>,
}

/// The headers of a request, as `Request::headers` returns them.
pub uninterp spec fn request_headers(request: Request) -> HeaderMap;

/// The URL of a request, as `Request::url` returns it.
pub uninterp spec fn request_url(request: Request) -> Url;

/// The rest of a request.
pub uninterp spec fn request_rest(request: Request) -> RequestRest;

/// A request can be cloned: `Request::try_clone` returns a request. It does so unless the body is a
/// stream.
pub uninterp spec fn request_replayable(request: Request) -> bool;

/// The names and values in the query of a URL, decoded, as `Url::query_pairs` returns them.
pub uninterp spec fn url_pairs(url: Url) -> Seq<(Seq<char>, Seq<char>)>;

/// The rest of a URL.
pub uninterp spec fn url_frame(url: Url) -> UrlFrame;

/// The bytes of the query of a URL, as `Url::query` returns it.
pub uninterp spec fn url_query(url: Url) -> Option<Seq<u8>>;

/// The text of a URL, as `Url::as_str` returns it: what stands before the query, the query behind a
/// question mark, and the fragment behind a number sign.
pub open spec fn url_text(url: Url) -> Seq<u8> {
    let query = match url_query(url) {
        Some(query) => seq![63u8] + query,
        None => Seq::empty(),
    };
    let fragment = match url_frame(url).fragment {
        Some(fragment) => seq![35u8] + fragment,
        None => Seq::empty(),
    };
    url_frame(url).before + query + fragment
}

/// A URL keeps in 32 bits where its query starts and where its fragment starts: with a query of so
/// many bytes both places fit.
pub open spec fn places_fit(frame: UrlFrame, query_len: nat) -> bool {
    &&& frame.before.len() <= u32::MAX
    &&& frame.fragment is Some ==> frame.before.len() + 1 + query_len <= u32::MAX
}

/// Two requests that are the same when they are sent.
pub open spec fn same_request(a: Request, b: Request) -> bool {
    &&& header_entries(request_headers(a)) == header_entries(request_headers(b))
    &&& request_url(a) == request_url(b)
    &&& request_rest(a) == request_rest(b)
    &&& request_replayable(a) == request_replayable(b)
}

/// `Request::headers_mut`: the headers, to be changed in place; nothing else changes.
pub assume_specification[ Request::headers_mut ](request: &mut Request) -> (headers: &mut HeaderMap)
    ensures
        *headers == request_headers(*old(request)),
        request_headers(*final(request)) == *final(headers),
        request_url(*final(request)) == request_url(*old(request)),
        request_rest(*final(request)) == request_rest(*old(request)),
        request_replayable(*final(request)) == request_replayable(*old(request)),
;

/// `Request::url_mut`: the URL, to be changed in place; nothing else changes.
pub assume_specification[ Request::url_mut ](request: &mut Request) -> (url: &mut Url)
    ensures
        *url == request_url(*old(request)),
        request_url(*final(request)) == *final(url),
        request_headers(*final(request)) == request_headers(*old(request)),
        request_rest(*final(request)) == request_rest(*old(request)),
        request_replayable(*final(request)) == request_replayable(*old(request)),
;

/// `Request::try_clone`: the same request once more, or `None` if the body is a stream. That the
/// copy has the same extensions too is not stated, since they are values of arbitrary types.
pub assume_specification[ Request::try_clone ](request: &Request) -> (copy: Option<Request>)
    ensures
        copy is Some <==> request_replayable(*request),
        copy matches Some(c) ==> same_request(*request, c),
;

/// The names and values in a list of pairs.
pub open spec fn pair_texts(pairs: Seq<(String, String)>) -> Seq<(Seq<char>, Seq<char>)> {
    Seq::new(pairs.len(), |i: int| (pairs[i].0@, pairs[i].1@))
}

/// `Url::query_pairs`: the names and values in the query, decoded.
#[verifier::external_body]
pub(crate) fn query_pairs(url: &Url) -> (pairs: Vec<(String, String)>)
    ensures
        pair_texts(pairs@) == url_pairs(*url),
{
    url.query_pairs().into_owned().collect()
}

/// `Url::as_str`, as a number of bytes.
#[verifier::external_body]
pub(crate) fn url_size(url: &Url) -> (size: usize)
    ensures
        size == url_text(*url).len(),
{
    url.as_str().len()
}

/// `Url::query`, as a number of bytes.
#[verifier::external_body]
pub(crate) fn query_size(url: &Url) -> (size: Option<usize>)
    ensures
        size is Some <==> url_query(*url) is Some,
        size matches Some(n) ==> n == url_query(*url)->0.len(),
{
    url.query().map(str::len)
}

/// `Url::fragment`, as a number of bytes.
#[verifier::external_body]
pub(crate) fn fragment_size(url: &Url) -> (size: Option<usize>)
    ensures
        size is Some <==> url_frame(*url).fragment is Some,
        size matches Some(n) ==> n == url_frame(*url).fragment->0.len(),
{
    url.fragment().map(str::len)
}

/// `clear` on what `Url::query_pairs_mut` returns: the query is there and empty, and the rest of
/// the URL is as it was. The call panics where a place in the URL does not fit in 32 bits.
#[verifier::external_body]
pub(crate) fn clear_query(url: &mut Url)
    requires
        places_fit(url_frame(*old(url)), 0),
    ensures
        url_pairs(*final(url)) == Seq::<(Seq<char>, Seq<char>)>::empty(),
        url_query(*final(url)) == Some(Seq::<u8>::empty()),
        url_frame(*final(url)) == url_frame(*old(url)),
{
    url.query_pairs_mut().clear();
}

/// A byte that stands for itself in a query.
pub open spec fn is_unreserved(byte: u8) -> bool {
    ||| 48 <= byte <= 57
    ||| 65 <= byte <= 90
    ||| 97 <= byte <= 122
    ||| byte == 42 || byte == 45 || byte == 46 || byte == 95
}

/// A hexadecimal digit, in upper case.
pub open spec fn hex_digit(digit: u8) -> u8 {
    if digit < 10 {
        (48 + digit) as u8
    } else {
        (55 + digit) as u8
    }
}

/// A byte as it is written in a query: as it is, a plus sign for a space, or else a percent sign and
/// two hexadecimal digits.
pub open spec fn encoded_byte(byte: u8) -> Seq<u8> {
    if is_unreserved(byte) {
        seq![byte]
    } else if byte == 32 {
        seq![43u8]
    } else {
        seq![37u8, hex_digit(byte / 16), hex_digit(byte % 16)]
    }
}

/// Bytes as they are written in a query.
pub open spec fn encoded(bytes: Seq<u8>) -> Seq<u8>
    decreases bytes.len(),
{
    if bytes.len() == 0 {
        Seq::empty()
    } else {
        encoded(bytes.drop_last()) + encoded_byte(bytes.last())
    }
}

/// A query with one more name and value behind it, and a separator between unless it was empty.
pub open spec fn with_pair(query: Seq<u8>, name: Seq<char>, value: Seq<char>) -> Seq<u8> {
    let separated = if query.len() > 0 {
        query.push(38)
    } else {
        query
    };
    separated + encoded(encode_utf8(name)) + seq![61u8] + encoded(encode_utf8(value))
}

/// `append_pair` on what `Url::query_pairs_mut` returns: one more name and value behind those in
/// the query, written as forms are, and the rest of the URL is as it was. The call panics where a
/// place in the URL does not fit in 32 bits.
#[verifier::external_body]
pub(crate) fn append_query(url: &mut Url, name: &str, value: &str)
    requires
        url_query(*old(url)) is Some,
        places_fit(
            url_frame(*old(url)),
            with_pair(url_query(*old(url))->0, name@, value@).len(),
        ),
    ensures
        url_pairs(*final(url)) == url_pairs(*old(url)).push((name@, value@)),
        url_query(*final(url)) == Some(with_pair(url_query(*old(url))->0, name@, value@)),
        url_frame(*final(url)) == url_frame(*old(url)),
{
    url.query_pairs_mut().append_pair(name, value);
}

/// Bytes are written one after the other in a query, each for itself: a letter, a digit and four signs
/// as they are, a space as a plus sign, and any other byte as a percent sign and the two hexadecimal
/// digits, in upper case, that make up its value.
pub proof fn law_bytes_are_written_one_by_one(front: Seq<u8>, back: Seq<u8>, byte: u8)
    ensures
        encoded(front + back) == encoded(front) + encoded(back),
        encoded(Seq::<u8>::empty()) == Seq::<u8>::empty(),
        if 48 <= byte <= 57 || 65 <= byte <= 90 || 97 <= byte <= 122 || byte == 42 || byte == 45
            || byte == 46 || byte == 95 {
            encoded(seq![byte]) == seq![byte]
        } else if byte == 32 {
            encoded(seq![byte]) == seq![43u8]
        } else {
            let text = encoded(seq![byte]);
            let high = text[1];
            let low = text[2];
            &&& text.len() == 3
            &&& text[0] == 37
            &&& 48 <= high <= 57 || 65 <= high <= 70
            &&& 48 <= low <= 57 || 65 <= low <= 70
            &&& byte == 16 * (if high <= 57 {
                high - 48
            } else {
                high - 55
            }) + (if low <= 57 {
                low - 48
            } else {
                low - 55
            })
        },
    decreases back.len(),
{
    if back.len() == 0 {
        assert(front + back =~= front);
        assert(encoded(front) + encoded(back) =~= encoded(front));
    } else {
        law_bytes_are_written_one_by_one(front, back.drop_last(), byte);
        assert((front + back).drop_last() =~= front + back.drop_last());
        assert(encoded(front) + (encoded(back.drop_last()) + encoded_byte(back.last()))
            =~= encoded(front) + encoded(back.drop_last()) + encoded_byte(back.last()));
    }
    let one = seq![byte];
    assert(one.drop_last() =~= Seq::<u8>::empty());
    assert(encoded(one.drop_last()) == Seq::<u8>::empty());
    assert(encoded(one) == encoded(one.drop_last()) + encoded_byte(byte));
    assert(encoded(one) =~= encoded_byte(byte));
}

/// A name and a value are written with an equals sign between them, and behind what is in the query
/// with an ampersand before them.
pub proof fn law_pairs_are_written_like_a_form(query: Seq<u8>, name: Seq<char>, value: Seq<char>)
    ensures
        with_pair(Seq::<u8>::empty(), name, value) == encoded(encode_utf8(name)).push(61) + encoded(
            encode_utf8(value),
        ),
        query.len() > 0 ==> with_pair(query, name, value) == query.push(38) + encoded(
            encode_utf8(name),
        ).push(61) + encoded(encode_utf8(value)),
{
    let n = encoded(encode_utf8(name));
    let v = encoded(encode_utf8(value));
    assert(with_pair(Seq::<u8>::empty(), name, value) =~= n.push(61) + v);
    if query.len() > 0 {
        assert(with_pair(query, name, value) =~= query.push(38) + n.push(61) + v);
    }
}

/// The text of a URL is what stands before the query, then the query behind a question mark if there
/// is one, then the fragment behind a number sign if there is one.
pub proof fn law_url_text_is_put_together(url: Url)
    ensures
        url_query(url) is None && url_frame(url).fragment is None ==> url_text(url) == url_frame(
            url,
        ).before,
        url_query(url) matches Some(query) ==> (url_frame(url).fragment is None ==> url_text(url)
            == url_frame(url).before.push(63) + query),
        url_query(url) matches Some(query) ==> (url_frame(url).fragment matches Some(fragment)
            ==> url_text(url) == (url_frame(url).before.push(63) + query).push(35) + fragment),
        url_query(url) is None ==> (url_frame(url).fragment matches Some(fragment) ==> url_text(url)
            == url_frame(url).before.push(35) + fragment),
{
    let before = url_frame(url).before;
    match (url_query(url), url_frame(url).fragment) {
        (None, None) => {
            assert(url_text(url) =~= before);
        },
        (Some(query), None) => {
            assert(url_text(url) =~= before.push(63) + query);
        },
        (Some(query), Some(fragment)) => {
            assert(url_text(url) =~= (before.push(63) + query).push(35) + fragment);
        },
        (None, Some(fragment)) => {
            assert(url_text(url) =~= before.push(35) + fragment);
        },
    }
}

/// The texts of pairs are those of their names and of their values, in order.
pub proof fn law_pairs_have_their_texts(pairs: Seq<(String, String)>)
    ensures
        pair_texts(pairs).len() == pairs.len(),
        forall|i: int|
            0 <= i < pairs.len() ==> #[trigger] pair_texts(pairs)[i] == (
                pairs[i].0@,
                pairs[i].1@,
            ),
{
}

} // verus!
