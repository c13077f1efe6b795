//! Response classification: is the active identity out of quota?

use std::time::Duration;

use http::header::HeaderMap;
use http::StatusCode;

use vstd::arithmetic::power::pow;
use vstd::prelude::*;

use crate::headers::{
    all_visible, first_value, header_entries, is_plain_name, is_visible, status_number,
    visible_text,
};
use crate::number::{
    all_digits, digits_value, is_blank, law_colon_is_in_no_number, law_plain_digits_are_seconds,
    law_seconds_left_are_the_fewest, law_timestamps_are_a_billion_or_more, quantity, read_number,
    trim, trim_end, trim_start, Number, Quantity,
};
use crate::time::{clock_may_show, duration_nanos, since_unix_epoch};

verus! {

/// What a [`Detector`] concluded about one response.
#[derive(Debug, Clone, Copy, PartialEq, Eq)]
pub enum Verdict {
    /// The identity is fine. Return the response.
    Fine,
    /// The identity is out of quota and this response is the rejection.
    /// The client cools the identity and re-sends under another one.
    Exhausted {
        /// Time until the identity is usable again, when the server says.
        retry_after: Option<Duration>,
    },
    /// This response succeeded but used the identity's last unit of quota.
    /// The client returns the response, then cools the identity.
    Depleted {
        /// Time until the identity is usable again, when the server says.
        retry_after: Option<Duration>,
    },
}

/// Classifies responses for the client. See [`DefaultDetector`] for the default.
///
/// Any `Fn(StatusCode, &HeaderMap, &[u8]) -> Verdict` is a detector that needs
/// the body. Wrap a header-only closure in [`HeaderDetector`] to skip buffering.
pub trait Detector: Send + Sync + 'static {
    /// The detector reads the body.
    spec fn reads_body(&self) -> bool;

    /// The responses that the detector can be asked about.
    spec fn can_classify(&self, status: StatusCode, headers: HeaderMap, body: Seq<u8>) -> bool;

    /// The verdicts that the detector may come to about a response.
    spec fn concludes(
        &self,
        status: StatusCode,
        headers: HeaderMap,
        body: Seq<u8>,
        verdict: Verdict,
    ) -> bool;

    /// Whether [`classify`](Self::classify) reads the body.
    ///
    /// When `true`, the client buffers every response before deciding and the
    /// caller cannot stream it. When `false`, the response passes through untouched,
    /// and the verdict is the same whatever the body is.
    fn needs_body(&self) -> (needs: bool)
        ensures
            needs == self.reads_body(),
            !needs ==> forall|status: StatusCode, headers: HeaderMap, a: Seq<u8>, b: Seq<u8>|
                #[trigger] self.can_classify(status, headers, a) == #[trigger] self.can_classify(
                    status,
                    headers,
                    b,
                ),
            !needs ==> forall|
                status: StatusCode,
                headers: HeaderMap,
                a: Seq<u8>,
                b: Seq<u8>,
                verdict: Verdict,
            |
                #[trigger] self.concludes(status, headers, a, verdict)
                    == #[trigger] self.concludes(status, headers, b, verdict),
    ;

    /// Classify one response. `body` is empty when [`needs_body`](Self::needs_body) is `false`.
    fn classify(&self, status: StatusCode, headers: &HeaderMap, body: &[u8]) -> (verdict: Verdict)
        requires
            self.can_classify(status, *headers, body@),
        ensures
            self.concludes(status, *headers, body@, verdict),
    ;
}

impl<F> Detector for F where
    F: Fn(StatusCode, &HeaderMap, &[u8]) -> Verdict + Send + Sync + 'static,
 {
    open spec fn reads_body(&self) -> bool {
        true
    }

    open spec fn can_classify(&self, status: StatusCode, headers: HeaderMap, body: Seq<u8>) -> bool {
        forall|bytes: &[u8]|
            bytes@ == body ==> #[trigger] call_requires(*self, (status, &headers, bytes))
    }

    open spec fn concludes(
        &self,
        status: StatusCode,
        headers: HeaderMap,
        body: Seq<u8>,
        verdict: Verdict,
    ) -> bool {
        exists|bytes: &[u8]| bytes@ == body && #[trigger] call_ensures(
            *self,
            (status, &headers, bytes),
            verdict,
        )
    }

    fn needs_body(&self) -> (needs: bool) {
        true
    }

    fn classify(&self, status: StatusCode, headers: &HeaderMap, body: &[u8]) -> (verdict: Verdict) {
        self(status, headers, body)
    }
}

/// A detector that decides from status and headers alone, so responses stream through.
#[derive(Debug, Clone, Copy)]
pub struct HeaderDetector<F>(F);

impl<F> HeaderDetector<F> where F: Fn(StatusCode, &HeaderMap) -> Verdict + Send + Sync + 'static {
    /// The classifier that was wrapped.
    pub closed spec fn classifier(&self) -> F {
        self.0
    }

    /// Wrap a header-only classifier.
    pub fn new(classify: F) -> (detector: Self)
        ensures
            detector.classifier() == classify,
    {
        HeaderDetector(classify)
    }
}

impl<F> Detector for HeaderDetector<F> where
    F: Fn(StatusCode, &HeaderMap) -> Verdict + Send + Sync + 'static,
 {
    open spec fn reads_body(&self) -> bool {
        false
    }

    open spec fn can_classify(&self, status: StatusCode, headers: HeaderMap, body: Seq<u8>) -> bool {
        call_requires(self.classifier(), (status, &headers))
    }

    open spec fn concludes(
        &self,
        status: StatusCode,
        headers: HeaderMap,
        body: Seq<u8>,
        verdict: Verdict,
    ) -> bool {
        call_ensures(self.classifier(), (status, &headers), verdict)
    }

    fn needs_body(&self) -> (needs: bool) {
        false
    }

    fn classify(&self, status: StatusCode, headers: &HeaderMap, _body: &[u8]) -> (verdict: Verdict) {
        (self.0)(status, headers)
    }
}

/// The number that the first value under a name writes, if it is visible text that is a number.
pub open spec fn header_quantity(headers: HeaderMap, name: Seq<char>) -> Option<Quantity> {
    let entries = header_entries(headers);
    if entries.contains_key(name) && all_visible(entries[name][0].bytes) {
        quantity(trim_end(trim_start(entries[name][0].bytes)))
    } else {
        None
    }
}

/// The whole seconds until the quota resets, as the headers tell at `now`, which is in nanoseconds
/// since the Unix epoch.
///
/// It is `Retry-After`, else `RateLimit-Reset`, else `X-RateLimit-Reset`, which is a Unix timestamp
/// when it is a billion or more.
pub open spec fn reset_seconds(headers: HeaderMap, now: nat) -> Option<nat> {
    match header_quantity(headers, "retry-after"@) {
        Some(delta) => Some(delta.seconds_past(0)),
        None => match header_quantity(headers, "ratelimit-reset"@) {
            Some(delta) => Some(delta.seconds_past(0)),
            None => match header_quantity(headers, "x-ratelimit-reset"@) {
                Some(reset) => if reset.is_timestamp() {
                    Some(reset.seconds_past(now))
                } else {
                    Some(reset.seconds_past(0))
                },
                None => None,
            },
        },
    }
}

/// A wait is so many whole seconds, and there is none if there are no seconds.
pub open spec fn waits(wait: Option<Duration>, seconds: Option<nat>) -> bool {
    match seconds {
        Some(s) => wait matches Some(w) && duration_nanos(w) == s * 1_000_000_000,
        None => wait is None,
    }
}

/// One of the two headers for the quota that is left says that none is.
pub open spec fn quota_is_spent(headers: HeaderMap) -> bool {
    ||| header_quantity(headers, "x-ratelimit-remaining"@) matches Some(left) && left.is_zero()
    ||| header_quantity(headers, "ratelimit-remaining"@) matches Some(left) && left.is_zero()
}

/// The verdict of the default detector at `now`, in nanoseconds since the Unix epoch: `429` is
/// exhausted, a success that left no quota is depleted, and everything else is fine.
pub open spec fn default_concludes(
    status: StatusCode,
    headers: HeaderMap,
    now: nat,
    verdict: Verdict,
) -> bool {
    if status_number(status) == 429 {
        verdict matches Verdict::Exhausted { retry_after } && waits(
            retry_after,
            reset_seconds(headers, now),
        )
    } else if 200 <= status_number(status) < 300 && quota_is_spent(headers) {
        verdict matches Verdict::Depleted { retry_after } && waits(
            retry_after,
            reset_seconds(headers, now),
        )
    } else {
        verdict is Fine
    }
}

/// The default detector. Needs no body.
///
/// - `429` is exhausted.
/// - A `2xx` with `X-RateLimit-Remaining: 0` or `RateLimit-Remaining: 0` is depleted.
/// - Everything else is fine.
///
/// `retry_after` comes from [`retry_after`].
#[derive(Debug, Clone, Copy)]
pub struct DefaultDetector;

impl Default for DefaultDetector {
    fn default() -> (detector: DefaultDetector)
        ensures
            detector == DefaultDetector,
    {
        DefaultDetector
    }
}

impl DefaultDetector {
    /// Classify one response at `now`, the time since the Unix epoch.
    pub fn classify_at(&self, status: StatusCode, headers: &HeaderMap, now: Duration) -> (verdict:
        Verdict)
        ensures
            default_concludes(status, *headers, duration_nanos(now), verdict),
    {
        if status.as_u16() == 429 {
            return Verdict::Exhausted { retry_after: retry_after_at(headers, now) };
        }
        if status.is_success() && remaining_is_zero(headers) {
            return Verdict::Depleted { retry_after: retry_after_at(headers, now) };
        }
        Verdict::Fine
    }
}

impl Detector for DefaultDetector {
    open spec fn reads_body(&self) -> bool {
        false
    }

    open spec fn can_classify(&self, status: StatusCode, headers: HeaderMap, body: Seq<u8>) -> bool {
        true
    }

    open spec fn concludes(
        &self,
        status: StatusCode,
        headers: HeaderMap,
        body: Seq<u8>,
        verdict: Verdict,
    ) -> bool {
        exists|now: Duration| #[trigger]
            may_be_now(now) && default_concludes(status, headers, duration_nanos(now), verdict)
    }

    fn needs_body(&self) -> (needs: bool) {
        false
    }

    fn classify(&self, status: StatusCode, headers: &HeaderMap, _body: &[u8]) -> (verdict: Verdict) {
        self.classify_at(status, headers, unix_now())
    }
}

/// The time since the Unix epoch is `now`, as a clock shows it: what has elapsed since then, or no
/// time at all if the clock stands before it.
pub open spec fn shows_time(elapsed: Option<Duration>, now: Duration) -> bool {
    match elapsed {
        Some(time) => now == time,
        None => duration_nanos(now) == 0,
    }
}

/// The time since the Unix epoch may be `now`, by the clock of the machine.
pub open spec fn may_be_now(now: Duration) -> bool {
    exists|elapsed: Option<Duration>| #[trigger] clock_may_show(elapsed) && shows_time(elapsed, now)
}

/// The time since the Unix epoch, by the clock of the machine. Which time that is rests on the clock
/// alone.
fn unix_now() -> (now: Duration)
    ensures
        may_be_now(now),
{
    epoch_time(since_unix_epoch())
}

/// The time since the Unix epoch that a clock shows.
pub fn epoch_time(elapsed: Option<Duration>) -> (now: Duration)
    ensures
        shows_time(elapsed, now),
        elapsed matches Some(time) ==> now == time,
        elapsed is None ==> duration_nanos(now) == 0,
{
    match elapsed {
        Some(time) => time,
        None => Duration::from_secs(0),
    }
}

/// Time until the quota resets, read from the common headers.
///
/// Checks `Retry-After` (delta seconds), then `RateLimit-Reset` (delta seconds),
/// then `X-RateLimit-Reset` (delta seconds, or a Unix timestamp when the value is
/// at least 10^9). Fractional seconds round up. An HTTP-date `Retry-After` is not
/// parsed and yields `None`.
///
/// Only a Unix timestamp is held against the clock of the machine.
pub fn retry_after(headers: &HeaderMap) -> (wait: Option<Duration>)
    ensures
        exists|now: Duration| #[trigger]
            may_be_now(now) && waits(wait, reset_seconds(*headers, duration_nanos(now))),
        exists|elapsed: Option<Duration>| #[trigger]
            clock_may_show(elapsed) && match reset_seconds(
                *headers,
                match elapsed {
                    Some(time) => duration_nanos(time),
                    None => 0,
                },
            ) {
                Some(seconds) => wait matches Some(w) && duration_nanos(w) == seconds
                    * 1_000_000_000,
                None => wait is None,
            },
{
    retry_after_at(headers, unix_now())
}

/// Time until the quota resets, read from the common headers at `now`, the time since the Unix
/// epoch.
pub fn retry_after_at(headers: &HeaderMap, now: Duration) -> (wait: Option<Duration>)
    ensures
        waits(wait, reset_seconds(*headers, duration_nanos(now))),
        match reset_seconds(*headers, duration_nanos(now)) {
            Some(seconds) => wait matches Some(w) && duration_nanos(w) == seconds * 1_000_000_000,
            None => wait is None,
        },
        match header_quantity(*headers, "retry-after"@) {
            Some(delta) => wait matches Some(w) && duration_nanos(w) == delta.seconds_past(0)
                * 1_000_000_000,
            None => true,
        },
{
    proof {
        lemma_plain_names();
    }
    if let Some(delta) = header_number(headers, "retry-after") {
        return Some(Duration::from_secs(delta.seconds_past(0)));
    }
    if let Some(delta) = header_number(headers, "ratelimit-reset") {
        return Some(Duration::from_secs(delta.seconds_past(0)));
    }
    match header_number(headers, "x-ratelimit-reset") {
        Some(reset) => {
            if reset.is_timestamp() {
                return Some(Duration::from_secs(reset.seconds_past(now.as_nanos())));
            }
            Some(Duration::from_secs(reset.seconds_past(0)))
        },
        None => None,
    }
}

/// The number that the first value under a name writes, if it is one.
fn header_number(headers: &HeaderMap, name: &str) -> (number: Option<Number>)
    requires
        is_plain_name(name@),
    ensures
        number is Some <==> header_quantity(*headers, name@) is Some,
        number matches Some(n) ==> n.reads(header_quantity(*headers, name@)->0),
{
    match first_value(headers, name) {
        Some(value) => match visible_text(value) {
            Some(text) => read_number(trim(text)),
            None => None,
        },
        None => None,
    }
}

/// One of the two headers for the quota that is left says that none is.
fn remaining_is_zero(headers: &HeaderMap) -> (zero: bool)
    ensures
        zero == quota_is_spent(*headers),
{
    proof {
        lemma_plain_names();
    }
    if let Some(left) = header_number(headers, "x-ratelimit-remaining") {
        if left.is_zero() {
            return true;
        }
    }
    if let Some(left) = header_number(headers, "ratelimit-remaining") {
        if left.is_zero() {
            return true;
        }
    }
    false
}

/// A detector for headers needs no body, and its verdict is that of its closure on status and
/// headers, whatever the body is.
pub proof fn law_header_detector_skips_the_body<F>(
    detector: HeaderDetector<F>,
    status: StatusCode,
    headers: HeaderMap,
    body: Seq<u8>,
    verdict: Verdict,
) where F: Fn(StatusCode, &HeaderMap) -> Verdict + Send + Sync + 'static
    ensures
        !detector.reads_body(),
        detector.concludes(status, headers, body, verdict) == call_ensures(
            detector.classifier(),
            (status, &headers),
            verdict,
        ),
{
}

/// Only `429` is exhausted and only a success can be depleted: any other response is fine, whatever
/// its headers are.
pub proof fn law_other_statuses_are_fine(
    status: StatusCode,
    headers: HeaderMap,
    now: nat,
    verdict: Verdict,
)
    requires
        default_concludes(status, headers, now, verdict),
    ensures
        verdict is Exhausted <==> status_number(status) == 429,
        verdict is Depleted ==> 200 <= status_number(status) < 300 && quota_is_spent(headers),
        status_number(status) != 429 && !(200 <= status_number(status) < 300) ==> verdict is Fine,
{
}

/// The clock matters for a Unix timestamp only: without one the reset is the same at any time.
pub proof fn law_only_timestamps_need_the_clock(headers: HeaderMap, now: nat, later: nat)
    requires
        !(header_quantity(headers, "x-ratelimit-reset"@) matches Some(reset)
            && reset.is_timestamp()),
    ensures
        reset_seconds(headers, now) == reset_seconds(headers, later),
{
}

/// A header whose first value is an HTTP-date, or anything else with a colon in it, is no number.
pub proof fn law_http_date_is_ignored(headers: HeaderMap, name: Seq<char>, i: int)
    requires
        header_entries(headers).contains_key(name),
        0 <= i < header_entries(headers)[name][0].bytes.len(),
        header_entries(headers)[name][0].bytes[i] == 58,
    ensures
        header_quantity(headers, name) is None,
{
    let bytes = header_entries(headers)[name][0].bytes;
    let j = lemma_trim_start_keeps(bytes, i);
    let k = lemma_trim_end_keeps(trim_start(bytes), j);
    law_colon_is_in_no_number(trim_end(trim_start(bytes)), k);
}

/// Dropping the blanks before a text keeps every byte that is not one.
proof fn lemma_trim_start_keeps(text: Seq<u8>, i: int) -> (j: int)
    requires
        0 <= i < text.len(),
        !is_blank(text[i]),
    ensures
        0 <= j < trim_start(text).len(),
        trim_start(text)[j] == text[i],
    decreases text.len(),
{
    if is_blank(text[0]) {
        lemma_trim_start_keeps(text.skip(1), i - 1)
    } else {
        i
    }
}

/// Dropping the blanks behind a text keeps every byte that is not one.
proof fn lemma_trim_end_keeps(text: Seq<u8>, i: int) -> (j: int)
    requires
        0 <= i < text.len(),
        !is_blank(text[i]),
    ensures
        0 <= j < trim_end(text).len(),
        trim_end(text)[j] == text[i],
    decreases text.len(),
{
    if is_blank(text.last()) {
        lemma_trim_end_keeps(text.drop_last(), i)
    } else {
        i
    }
}

/// The names that the default detector looks up are plain.
proof fn lemma_plain_names()
    ensures
        is_plain_name("retry-after"@),
        is_plain_name("ratelimit-reset"@),
        is_plain_name("x-ratelimit-reset"@),
        is_plain_name("x-ratelimit-remaining"@),
        is_plain_name("ratelimit-remaining"@),
{
    reveal_strlit("retry-after");
    reveal_strlit("ratelimit-reset");
    reveal_strlit("x-ratelimit-reset");
    reveal_strlit("x-ratelimit-remaining");
    reveal_strlit("ratelimit-remaining");
}

/// A closure on status, headers and body is a detector that reads the body, and its verdict is what it
/// returns for them.
pub proof fn law_closure_detector_reads_the_body<F>(
    detector: F,
    status: StatusCode,
    headers: HeaderMap,
    body: Seq<u8>,
    verdict: Verdict,
) where F: Fn(StatusCode, &HeaderMap, &[u8]) -> Verdict + Send + Sync + 'static
    ensures
        detector.reads_body(),
        detector.concludes(status, headers, body, verdict) ==> exists|bytes: &[u8]|
            bytes@ == body && #[trigger] call_ensures(detector, (status, &headers, bytes), verdict),
{
}

/// The number of a header is that of the first value under its name, without the blanks around it,
/// and only if that value is of printable ASCII characters and tabs. Later values do not matter.
pub proof fn law_first_value_is_read(headers: HeaderMap, name: Seq<char>)
    ensures
        !header_entries(headers).contains_key(name) ==> header_quantity(headers, name) is None,
        header_entries(headers).contains_key(name) ==> {
            let bytes = header_entries(headers)[name][0].bytes;
            header_quantity(headers, name) == if forall|i: int|
                0 <= i < bytes.len() ==> #[trigger] bytes[i] == 9 || 32 <= bytes[i] <= 126 {
                quantity(trim_end(trim_start(bytes)))
            } else {
                None
            }
        },
{
    if header_entries(headers).contains_key(name) {
        let bytes = header_entries(headers)[name][0].bytes;
        crate::headers::law_header_values_have_no_controls(Seq::empty(), bytes);
        if forall|i: int| 0 <= i < bytes.len() ==> #[trigger] bytes[i] == 9 || 32 <= bytes[i] <= 126 {
            assert(all_visible(bytes));
        } else {
            let i = choose|i: int|
                0 <= i < bytes.len() && !(#[trigger] bytes[i] == 9 || 32 <= bytes[i] <= 126);
            assert(!is_visible(bytes[i]));
            assert(!all_visible(bytes));
        }
    }
}

/// `Retry-After` comes first: if it is a number, the reset is that many seconds away, whatever the
/// other headers say and whatever time it is. If not, `RateLimit-Reset` comes next in the same way,
/// and only then `X-RateLimit-Reset`, which alone can be a Unix timestamp.
pub proof fn law_retry_after_comes_first(headers: HeaderMap, now: nat)
    ensures
        header_quantity(headers, "retry-after"@) matches Some(delta) ==> reset_seconds(headers, now)
            == Some(delta.seconds_past(0)),
        header_quantity(headers, "retry-after"@) is None ==> (header_quantity(
            headers,
            "ratelimit-reset"@,
        ) matches Some(delta) ==> reset_seconds(headers, now) == Some(delta.seconds_past(0))),
        header_quantity(headers, "retry-after"@) is None && header_quantity(
            headers,
            "ratelimit-reset"@,
        ) is None ==> match header_quantity(headers, "x-ratelimit-reset"@) {
            Some(reset) => {
                &&& reset.is_timestamp() ==> reset_seconds(headers, now) == Some(
                    reset.seconds_past(now),
                )
                &&& !reset.is_timestamp() ==> reset_seconds(headers, now) == Some(
                    reset.seconds_past(0),
                )
            },
            None => reset_seconds(headers, now) is None,
        },
{
}

/// Whatever the default detector concludes, it concludes at a time that the clock of the machine may
/// show: `429` is exhausted, a success is depleted if one of the two headers for the quota that is
/// left says zero, anything else is fine, and the time to the reset is the one that the headers tell
/// at that time, in whole seconds.
pub proof fn law_default_detector_reads_the_clock(
    status: StatusCode,
    headers: HeaderMap,
    body: Seq<u8>,
    verdict: Verdict,
)
    requires
        DefaultDetector.concludes(status, headers, body, verdict),
    ensures
        exists|elapsed: Option<Duration>|
            {
                let now = match elapsed {
                    Some(time) => duration_nanos(time),
                    None => 0,
                };
                let spent = {
                    ||| header_quantity(headers, "x-ratelimit-remaining"@) matches Some(left)
                        && left.is_zero()
                    ||| header_quantity(headers, "ratelimit-remaining"@) matches Some(left)
                        && left.is_zero()
                };
                &&& #[trigger] clock_may_show(elapsed)
                &&& status_number(status) == 429 ==> (verdict matches Verdict::Exhausted {
                    retry_after,
                } && match reset_seconds(headers, now) {
                    Some(seconds) => retry_after matches Some(wait) && duration_nanos(wait)
                        == seconds * 1_000_000_000,
                    None => retry_after is None,
                })
                &&& status_number(status) != 429 && 200 <= status_number(status) <= 299 && spent
                    ==> (verdict matches Verdict::Depleted { retry_after } && match reset_seconds(
                    headers,
                    now,
                ) {
                    Some(seconds) => retry_after matches Some(wait) && duration_nanos(wait)
                        == seconds * 1_000_000_000,
                    None => retry_after is None,
                })
                &&& status_number(status) != 429 && !(200 <= status_number(status) <= 299 && spent)
                    ==> verdict is Fine
            },
{
    let now = choose|now: Duration| #[trigger]
        may_be_now(now) && default_concludes(status, headers, duration_nanos(now), verdict);
    let elapsed = choose|elapsed: Option<Duration>| #[trigger]
        clock_may_show(elapsed) && shows_time(elapsed, now);
    assert(clock_may_show(elapsed));
}

/// A `429` whose first `Retry-After` is a row of digits is exhausted for exactly that many seconds,
/// whatever else its headers say and whatever time it is.
pub proof fn law_plain_retry_after_is_taken_as_it_is(
    status: StatusCode,
    headers: HeaderMap,
    body: Seq<u8>,
    verdict: Verdict,
    text: Seq<u8>,
)
    requires
        DefaultDetector.concludes(status, headers, body, verdict),
        status_number(status) == 429,
        header_entries(headers).contains_key("retry-after"@),
        header_entries(headers)["retry-after"@][0].bytes == text,
        text.len() > 0,
        forall|i: int| 0 <= i < text.len() ==> 48 <= #[trigger] text[i] <= 57,
        digits_value(text) <= u64::MAX,
    ensures
        verdict matches Verdict::Exhausted { retry_after: Some(wait) } && duration_nanos(wait)
            == digits_value(text) * 1_000_000_000,
{
    lemma_plain_digits(headers, "retry-after"@, text);
    law_default_detector_reads_the_clock(status, headers, body, verdict);
}

/// A `429` that tells its reset by a Unix timestamp alone, a row of digits for a billion or more, is
/// exhausted from a time that the clock of the machine may show to that timestamp, in whole seconds
/// rounded up, and for no time at all if it is past.
pub proof fn law_timestamp_is_held_against_the_clock(
    status: StatusCode,
    headers: HeaderMap,
    body: Seq<u8>,
    verdict: Verdict,
    text: Seq<u8>,
)
    requires
        DefaultDetector.concludes(status, headers, body, verdict),
        status_number(status) == 429,
        !header_entries(headers).contains_key("retry-after"@),
        !header_entries(headers).contains_key("ratelimit-reset"@),
        header_entries(headers).contains_key("x-ratelimit-reset"@),
        header_entries(headers)["x-ratelimit-reset"@][0].bytes == text,
        text.len() > 0,
        forall|i: int| 0 <= i < text.len() ==> 48 <= #[trigger] text[i] <= 57,
        1_000_000_000 <= digits_value(text) <= u64::MAX,
    ensures
        exists|elapsed: Option<Duration>|
            {
                let now = match elapsed {
                    Some(time) => duration_nanos(time) as int,
                    None => 0,
                };
                let reset = digits_value(text) * 1_000_000_000;
                &&& #[trigger] clock_may_show(elapsed)
                &&& verdict matches Verdict::Exhausted { retry_after: Some(wait) } && {
                    &&& duration_nanos(wait) % 1_000_000_000 == 0
                    &&& now + duration_nanos(wait) >= reset
                    &&& duration_nanos(wait) > 0 ==> now + duration_nanos(wait) < reset
                        + 1_000_000_000
                }
            },
{
    lemma_plain_digits(headers, "x-ratelimit-reset"@, text);
    let quantity = Quantity::Finite { negative: false, digits: digits_value(text), exponent: 0 };
    law_timestamps_are_a_billion_or_more(digits_value(text), 0, false);
    assert(pow(10, 0) == 1 && pow(10, 9) == 1_000_000_000) by {
        reveal_with_fuel(pow, 10);
    }
    let now = choose|now: Duration| #[trigger]
        may_be_now(now) && default_concludes(status, headers, duration_nanos(now), verdict);
    let elapsed = choose|elapsed: Option<Duration>| #[trigger]
        clock_may_show(elapsed) && shows_time(elapsed, now);
    law_seconds_left_are_the_fewest(digits_value(text), 0, duration_nanos(now));
    assert(clock_may_show(elapsed));
    let seconds = quantity.seconds_past(duration_nanos(now)) as int;
    assert(quantity.is_timestamp());
    assert(reset_seconds(headers, duration_nanos(now)) == Some(seconds as nat));
    assert((seconds * 1_000_000_000) % 1_000_000_000 == 0);
}

/// The number of a header whose first value is a row of digits.
proof fn lemma_plain_digits(headers: HeaderMap, name: Seq<char>, text: Seq<u8>)
    requires
        header_entries(headers).contains_key(name),
        header_entries(headers)[name][0].bytes == text,
        text.len() > 0,
        forall|i: int| 0 <= i < text.len() ==> 48 <= #[trigger] text[i] <= 57,
    ensures
        header_quantity(headers, name) == Some(
            Quantity::Finite { negative: false, digits: digits_value(text), exponent: 0 },
        ),
        digits_value(text) <= u64::MAX ==> header_quantity(headers, name)->0.seconds_past(0)
            == digits_value(text),
{
    law_first_value_is_read(headers, name);
    assert(48 <= text[0] <= 57);
    assert(48 <= text[text.len() - 1] <= 57);
    assert(trim_start(text) == text);
    assert(trim_end(text) == text);
    assert(all_digits(text));
    law_plain_digits_are_seconds(text);
}

/// The default detector reads no body and can be asked about every response.
pub proof fn law_default_detector_takes_every_response(
    status: StatusCode,
    headers: HeaderMap,
    body: Seq<u8>,
)
    ensures
        !DefaultDetector.reads_body(),
        DefaultDetector.can_classify(status, headers, body),
{
}

/// A closure that can be called with a response can be asked about it as a detector.
pub proof fn law_closures_can_be_asked<F, G>(
    closure: F,
    detector: HeaderDetector<G>,
    status: StatusCode,
    headers: HeaderMap,
    body: Seq<u8>,
) where
    F: Fn(StatusCode, &HeaderMap, &[u8]) -> Verdict + Send + Sync + 'static,
    G: Fn(StatusCode, &HeaderMap) -> Verdict + Send + Sync + 'static

    ensures
        (forall|bytes: &[u8]| #[trigger] call_requires(closure, (status, &headers, bytes)))
            ==> closure.can_classify(status, headers, body),
        call_requires(detector.classifier(), (status, &headers)) ==> detector.can_classify(
            status,
            headers,
            body,
        ),
{
}

/// What the default detector concludes at a given time: `429` is exhausted, a success is depleted if
/// one of the two headers for the quota that is left says zero, and anything else is fine. The time
/// to the reset is the one that the headers tell at that time, in whole seconds.
pub proof fn law_verdict_at_a_given_time(
    status: StatusCode,
    headers: HeaderMap,
    now: nat,
    verdict: Verdict,
)
    requires
        default_concludes(status, headers, now, verdict),
    ensures
        ({
            let spent = {
                ||| header_quantity(headers, "x-ratelimit-remaining"@) matches Some(left)
                    && left.is_zero()
                ||| header_quantity(headers, "ratelimit-remaining"@) matches Some(left)
                    && left.is_zero()
            };
            let told = match verdict {
                Verdict::Exhausted { retry_after } => retry_after,
                Verdict::Depleted { retry_after } => retry_after,
                Verdict::Fine => None,
            };
            &&& verdict is Exhausted <==> status_number(status) == 429
            &&& verdict is Depleted <==> 200 <= status_number(status) <= 299 && spent
            &&& verdict !is Fine ==> match reset_seconds(headers, now) {
                Some(seconds) => told matches Some(wait) && duration_nanos(wait) == seconds
                    * 1_000_000_000,
                None => told is None,
            }
        }),
{
}

} // verus!
