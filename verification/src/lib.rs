//! Rotation of identities for a rate-limited HTTP client.
//!
//! An [`Identity`] is a set of headers, query parameters, a proxy, a stamp hook, or any
//! combination. Each request goes out under the active one. When the [`Detector`] reports the
//! response as a rate-limit rejection, that identity cools, the next one takes over, and the
//! request is sent again.
//!
//! The [`Client`] decides all of this and sends nothing itself: it tells what is to be done next
//! for a request, and is told what came of it.

pub mod building;
pub mod client;
pub mod course;
pub mod detector;
pub mod error;
pub mod headers;
pub mod identity;
pub mod number;
pub mod query;
pub mod request;
pub mod response;
pub mod rotation;
pub mod time;
pub mod transport;

pub use client::{
    Action, Client, ClientBuilder, Event, Exchange, Exhausted, DEFAULT_COOLDOWN_SECS,
};
pub use detector::{retry_after, DefaultDetector, Detector, HeaderDetector, Verdict};
pub use error::Error;
pub use identity::{ApplyError, Identity, IdentityBuilder, IdentityError, IdentitySummary};
pub use response::Buffered;
pub use rotation::Rotation;

