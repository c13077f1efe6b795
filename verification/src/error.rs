//! The one error type that sending a request ends with.

use std::time::Duration;

use vstd::prelude::*;

verus! {

/// Error from sending a request.
///
/// Everything `reqwest` can fail with passes through unchanged. The only
/// addition is [`AllExhausted`](Self::AllExhausted).
#[derive(Debug)]
pub enum Error {
    /// A transport, TLS, timeout, or builder error from `reqwest`.
    Reqwest(reqwest::Error),
    /// Every identity is cooling and the client was built with
    /// [`Exhausted::Error`](crate::client::Exhausted::Error).
    AllExhausted {
        /// Time until the first identity leaves cooldown.
        retry_after: Duration,
    },
}

} // verus!
