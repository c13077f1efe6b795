//! The client types of the `reqwest` crate, and where a client comes from.

use reqwest::Client as Transport;
use reqwest::ClientBuilder as TransportBuilder;
use reqwest::Error as TransportError;
use reqwest::Proxy;

use vstd::prelude::*;

verus! {

/// A client that sends requests.
#[verifier::external_type_specification]
#[verifier::external_body]
pub struct ExClient(Transport);

/// A client under construction.
#[verifier::external_type_specification]
#[verifier::external_body]
pub struct ExClientBuilder(TransportBuilder);

/// The error of a client.
#[verifier::external_type_specification]
#[verifier::external_body]
pub struct ExError(TransportError);

/// A builder as `ClientBuilder::new` returns it, with the default settings.
pub uninterp spec fn is_fresh_builder(builder: TransportBuilder) -> bool;

/// A builder with one more proxy, as `ClientBuilder::proxy` returns it.
pub uninterp spec fn proxied_builder(
    builder: TransportBuilder,
    proxy: Proxy,
) -> TransportBuilder;

/// A client or an error that `ClientBuilder::build` may return for a builder. Which one it is
/// depends on the machine too, so there may be several.
pub uninterp spec fn may_build(
    builder: TransportBuilder,
    built: Result<Transport, TransportError>,
) -> bool;

/// `ClientBuilder::new`: a builder with the default settings.
#[verifier::external_body]
pub(crate) fn fresh_builder() -> (builder: TransportBuilder)
    ensures
        is_fresh_builder(builder),
{
    TransportBuilder::new()
}

/// `ClientBuilder::proxy`: the same builder with that proxy added.
#[verifier::external_body]
pub(crate) fn with_proxy(builder: TransportBuilder, proxy: Proxy) -> (proxied: TransportBuilder)
    ensures
        proxied == proxied_builder(builder, proxy),
{
    builder.proxy(proxy)
}

/// `ClientBuilder::build`: a client of those settings, or the error why there is none. Nothing is
/// said of when it succeeds.
#[verifier::external_body]
pub(crate) fn build_client(builder: TransportBuilder) -> (built: Result<
    Transport,
    TransportError,
>)
    ensures
        may_build(builder, built),
{
    builder.build()
}

/// `Client::clone`: one more handle to the same client.
pub assume_specification[ <Transport as Clone>::clone ](client: &Transport) -> (handle:
    Transport)
    ensures
        handle == *client,
;

} // verus!
