//! The client, its builder, and the course of one request.

use std::time::Duration;

use http::header::HeaderMap;
use http::StatusCode;
use reqwest::{Proxy, Request, Response};

use vstd::prelude::*;
use vstd::slice::slice_subrange;

use crate::detector::{DefaultDetector, Detector, Verdict};
use crate::error::Error;
use crate::headers::{all_sensitive, header_entries, status_number};
use crate::identity::{fields_applied, headers_fit, ApplyError, Identity};
use crate::query::query_fits;
use crate::request::{request_replayable, request_url, same_request};
use crate::response::{rebuild, response_parts, Buffered};
use crate::rotation::{Rotation, RotationState};
use crate::time::{capped_nanos, duration_nanos, from_nanos};
use crate::transport::{
    build_client, fresh_builder, is_fresh_builder, may_build, proxied_builder, with_proxy,
};

verus! {

/// How long an exhausted identity stays out of rotation when the server gives no reset time, in
/// seconds.
pub const DEFAULT_COOLDOWN_SECS: u64 = 60;

/// What the client does when every identity is cooling.
#[derive(Debug, Clone, Copy, PartialEq, Eq)]
pub enum Exhausted {
    /// Sleep until the soonest identity resets, then try again.
    Wait,
    /// Return [`Error::AllExhausted`] at once.
    Error,
}

impl Default for Exhausted {
    fn default() -> (policy: Exhausted)
        ensures
            policy is Wait,
    {
        Exhausted::Wait
    }
}

/// One identity of the pool and the client that sends its requests.
struct Slot<S> {
    identity: Identity<S>,
    client: reqwest::Client,
}

/// A client that rotates identities when the active one is rate-limited: the part that does not
/// change. What changes is the [`Rotation`].
pub struct Client<S, D> {
    direct: reqwest::Client,
    slots: Vec<Slot<S>>,
    detector: D,
    cooldown: Duration,
    on_exhausted: Exhausted,
}

/// How far a request has come.
pub enum Exchange {
    /// Every identity is cooling. The request is to be sent once one of them is back.
    Waiting {
        /// The request that is sent next.
        next: Request,
        /// A copy to send again, unless the request cannot be cloned.
        template: Option<Request>,
    },
    /// The request was sent under an identity and is not answered yet.
    Flying {
        /// The index of the identity.
        identity: usize,
        /// A copy to send again, unless the request cannot be cloned.
        template: Option<Request>,
    },
    /// Nothing more is to be done.
    Over,
}

/// What became of the last action.
pub enum Event {
    /// The time to sleep is over.
    Woke,
    /// There is a response, and this is what the detector concluded about it.
    Answered {
        /// The conclusion.
        verdict: Verdict,
    },
    /// The request could not be sent, or not be answered.
    Failed {
        /// The reason.
        error: reqwest::Error,
    },
}

/// What is to be done next for a request.
pub enum Action {
    /// Send the request as it is with the direct client, and return whatever comes back.
    SendDirect {
        /// The request.
        request: Request,
    },
    /// Send the request under an identity.
    Send {
        /// The index of the identity.
        identity: usize,
        /// The request.
        request: Request,
    },
    /// Sleep for that long.
    Sleep {
        /// How long.
        wait: Duration,
    },
    /// Return the response that came last.
    Deliver,
    /// Return the error.
    Refuse {
        /// The error.
        error: Error,
    },
}

impl<S, D> Client<S, D> {
    /// The client for requests with no proxy.
    pub closed spec fn direct_client(&self) -> reqwest::Client {
        self.direct
    }

    /// The number of identities.
    pub closed spec fn count(&self) -> int {
        self.slots.len() as int
    }

    /// The identities, in rotation order.
    pub closed spec fn identity_at(&self, i: int) -> Identity<S> {
        self.slots[i].identity
    }

    /// The client that sends the requests under an identity.
    pub closed spec fn client_at(&self, i: int) -> reqwest::Client {
        self.slots[i].client
    }

    /// The detector.
    pub closed spec fn detector_set(&self) -> D {
        self.detector
    }

    /// How long an exhausted identity stays out of rotation when the server gives no reset time.
    pub closed spec fn cooldown_set(&self) -> Duration {
        self.cooldown
    }

    /// What to do when every identity is cooling.
    pub closed spec fn policy(&self) -> Exhausted {
        self.on_exhausted
    }

    /// A rotation is one over the identities of this client.
    pub open spec fn governs(&self, state: RotationState) -> bool {
        state.len() == self.count() && (self.count() > 0 ==> state.wf())
    }

    /// How long an identity cools: as long as the server says, else for the cooldown.
    pub open spec fn wait_nanos(&self, retry_after: Option<Duration>) -> nat {
        match retry_after {
            Some(wait) => duration_nanos(wait),
            None => duration_nanos(self.cooldown_set()),
        }
    }

    /// The rotation once an identity was put out of it at `now`.
    pub open spec fn cooled(
        &self,
        state: RotationState,
        identity: int,
        retry_after: Option<Duration>,
        now: nat,
    ) -> RotationState {
        state.cooled(identity, (now + self.wait_nanos(retry_after)) as u128)
    }

    /// A wait at `now` that is over when the first identity leaves cooldown.
    pub open spec fn until_soonest(state: RotationState, now: nat, wait: Duration) -> bool {
        exists|soonest: u128| #[trigger]
            state.is_soonest(soonest) && duration_nanos(wait) == capped_nanos(
                (soonest - now) as nat,
            )
    }

    /// A request is sent under the first identity that is not cooling. If there is none, it waits
    /// or is refused, as the policy says, and the rotation does not change.
    pub open spec fn dispatched(
        &self,
        before: RotationState,
        now: nat,
        next: Request,
        template: Option<Request>,
        after: RotationState,
        exchange: Exchange,
        action: Action,
    ) -> bool {
        match before.next_ready(now) {
            Some(i) => {
                &&& after == before.taken(i)
                &&& exchange matches Exchange::Flying { identity, template: copy } && identity == i
                    && copy == template
                &&& action matches Action::Send { identity, request } && identity == i && request
                    == next
            },
            None => {
                &&& before.all_cooling(now)
                &&& after == before
                &&& match self.policy() {
                    Exhausted::Wait => {
                        &&& exchange == (Exchange::Waiting { next, template })
                        &&& action matches Action::Sleep { wait } && Self::until_soonest(
                            before,
                            now,
                            wait,
                        )
                    },
                    Exhausted::Error => {
                        &&& exchange is Over
                        &&& action matches Action::Refuse { error } && error
                            matches Error::AllExhausted { retry_after } && Self::until_soonest(
                            before,
                            now,
                            retry_after,
                        )
                    },
                }
            },
        }
    }

    /// The number of identities.
    pub fn len(&self) -> (count: usize)
        ensures
            count == self.count(),
    {
        self.slots.len()
    }

    /// The rotation that this client starts with: no identity is cooling.
    pub fn rotation(&self) -> (rotation: Rotation)
        ensures
            self.governs(rotation@),
            rotation@.active == 0,
            rotation@.until.len() == self.count(),
            forall|i: int| 0 <= i < self.count() ==> rotation@.until[i] is None,
    {
        Rotation::new(self.slots.len())
    }

    /// Send a request under the next identity that is not cooling, honouring the exhausted policy.
    fn pick(
        &self,
        rotation: &mut Rotation,
        next: Request,
        template: Option<Request>,
        now: Duration,
    ) -> (step: (Exchange, Action))
        requires
            self.governs(old(rotation)@),
            self.count() > 0,
        ensures
            self.governs(final(rotation)@),
            forall|j: int|
                0 <= j < old(rotation)@.until.len() && (
                #[trigger] old(rotation)@.until[j] matches Some(reset) && reset > duration_nanos(now))
                    ==> final(rotation)@.until[j] == old(rotation)@.until[j],
            self.dispatched(
                old(rotation)@,
                duration_nanos(now),
                next,
                template,
                final(rotation)@,
                step.0,
                step.1,
            ),
    {
        match rotation.next_ready(now) {
            Ok(identity) => (
                Exchange::Flying { identity, template },
                Action::Send { identity, request: next },
            ),
            Err(soonest) => {
                let retry_after = from_nanos(soonest - now.as_nanos());
                match self.on_exhausted {
                    Exhausted::Error => (
                        Exchange::Over,
                        Action::Refuse { error: Error::AllExhausted { retry_after } },
                    ),
                    Exhausted::Wait => (
                        Exchange::Waiting { next, template },
                        Action::Sleep { wait: retry_after },
                    ),
                }
            },
        }
    }

    /// Take an identity out of rotation and move the starting point past it.
    fn cool(
        &self,
        rotation: &mut Rotation,
        identity: usize,
        retry_after: Option<Duration>,
        now: Duration,
    )
        requires
            self.governs(old(rotation)@),
            identity < self.count(),
        ensures
            self.governs(final(rotation)@),
            final(rotation)@ == self.cooled(
                old(rotation)@,
                identity as int,
                retry_after,
                duration_nanos(now),
            ),
            duration_nanos(now) + self.wait_nanos(retry_after) <= u128::MAX,
    {
        let wait = match retry_after {
            Some(wait) => wait,
            None => self.cooldown,
        };
        rotation.cool(identity, wait, now);
    }

    /// Start sending a request under the active identity.
    ///
    /// With no identities the request goes out as it is. A request whose body cannot be cloned is
    /// sent once and never re-sent, even if the response is the rate-limit rejection. `now` is the
    /// time on the clock of the rotation. What is to be done next is the action; what became of it
    /// goes to [`resume`](Self::resume).
    pub fn execute(&self, rotation: &mut Rotation, request: Request, now: Duration) -> (step: (
        Exchange,
        Action,
    ))
        requires
            self.governs(old(rotation)@),
        ensures
            self.governs(final(rotation)@),
            if self.count() == 0 {
                &&& final(rotation)@ == old(rotation)@
                &&& step.0 is Over
                &&& step.1 == (Action::SendDirect { request })
            } else {
                exists|template: Option<Request>|
                    {
                        &&& template is Some <==> request_replayable(request)
                        &&& template matches Some(copy) ==> same_request(request, copy)
                        &&& #[trigger] self.dispatched(
                            old(rotation)@,
                            duration_nanos(now),
                            request,
                            template,
                            final(rotation)@,
                            step.0,
                            step.1,
                        )
                    }
            },
    {
        if self.slots.len() == 0 {
            return (Exchange::Over, Action::SendDirect { request });
        }
        let template = request.try_clone();
        self.pick(rotation, request, template, now)
    }

    /// Go on with a request after its last action was done.
    ///
    /// A rejected request cools its identity and is sent again under the next one, unless it cannot
    /// be cloned. A response that used the last of the quota is returned, and its identity cools.
    /// An error is returned as it is.
    pub fn resume(
        &self,
        rotation: &mut Rotation,
        exchange: Exchange,
        event: Event,
        now: Duration,
    ) -> (step: (Exchange, Action))
        requires
            self.governs(old(rotation)@),
            match exchange {
                Exchange::Waiting { .. } => event is Woke && self.count() > 0,
                Exchange::Flying { identity, .. } => event !is Woke && identity < self.count(),
                Exchange::Over => false,
            },
        ensures
            self.governs(final(rotation)@),
            self.resumed(
                old(rotation)@,
                duration_nanos(now),
                exchange,
                event,
                final(rotation)@,
                step.0,
                step.1,
            ),
            match (exchange, event) {
                (Exchange::Flying { .. }, Event::Answered { verdict: Verdict::Fine }) => {
                    &&& final(rotation)@ == old(rotation)@
                    &&& step.1 is Deliver
                },
                (Exchange::Flying { .. }, Event::Failed { error }) => {
                    &&& final(rotation)@ == old(rotation)@
                    &&& step.1 == (Action::Refuse { error: Error::Reqwest(error) })
                },
                (
                    Exchange::Flying { identity, .. },
                    Event::Answered { verdict: Verdict::Depleted { retry_after } },
                ) => {
                    let wait = match retry_after {
                        Some(said) => said,
                        None => self.cooldown_set(),
                    };
                    &&& final(rotation)@.until[identity as int] matches Some(reset) && reset
                        == duration_nanos(now) + duration_nanos(wait)
                    &&& step.1 is Deliver
                },
                (
                    Exchange::Flying { identity, .. },
                    Event::Answered { verdict: Verdict::Exhausted { retry_after } },
                ) => {
                    let wait = match retry_after {
                        Some(said) => said,
                        None => self.cooldown_set(),
                    };
                    duration_nanos(wait) > 0 ==> (final(rotation)@.until[identity as int] matches Some(
                        reset,
                    ) && reset == duration_nanos(now) + duration_nanos(wait))
                },
                _ => true,
            },
    {
        match (exchange, event) {
            (Exchange::Waiting { next, template }, _) => self.pick(rotation, next, template, now),
            (Exchange::Flying { identity, template }, Event::Answered { verdict }) => {
                match verdict {
                    Verdict::Fine => (Exchange::Over, Action::Deliver),
                    Verdict::Depleted { retry_after } => {
                        self.cool(rotation, identity, retry_after, now);
                        (Exchange::Over, Action::Deliver)
                    },
                    Verdict::Exhausted { retry_after } => {
                        self.cool(rotation, identity, retry_after, now);
                        match template {
                            None => (Exchange::Over, Action::Deliver),
                            Some(copy) => match copy.try_clone() {
                                None => (Exchange::Over, Action::Deliver),
                                Some(next) => self.pick(rotation, next, Some(copy), now),
                            },
                        }
                    },
                }
            },
            (_, Event::Failed { error }) => (
                Exchange::Over,
                Action::Refuse { error: Error::Reqwest(error) },
            ),
            _ => (Exchange::Over, Action::Deliver),
        }
    }

    /// What happens to a request once its last action was done.
    pub open spec fn resumed(
        &self,
        before: RotationState,
        now: nat,
        exchange: Exchange,
        event: Event,
        after: RotationState,
        next_exchange: Exchange,
        action: Action,
    ) -> bool {
        match (exchange, event) {
            (Exchange::Waiting { next, template }, Event::Woke) => self.dispatched(
                before,
                now,
                next,
                template,
                after,
                next_exchange,
                action,
            ),
            (Exchange::Flying { identity, template }, Event::Answered { verdict }) => match verdict {
                Verdict::Fine => {
                    &&& after == before
                    &&& next_exchange is Over
                    &&& action is Deliver
                },
                Verdict::Depleted { retry_after } => {
                    &&& after == self.cooled(before, identity as int, retry_after, now)
                    &&& next_exchange is Over
                    &&& action is Deliver
                },
                Verdict::Exhausted { retry_after } => {
                    let cooled = self.cooled(before, identity as int, retry_after, now);
                    match template {
                        Some(copy) if request_replayable(copy) => exists|next: Request|
                            same_request(copy, next) && #[trigger] self.dispatched(
                                cooled,
                                now,
                                next,
                                template,
                                after,
                                next_exchange,
                                action,
                            ),
                        _ => {
                            &&& after == cooled
                            &&& next_exchange is Over
                            &&& action is Deliver
                        },
                    }
                },
            },
            (Exchange::Flying { .. }, Event::Failed { error }) => {
                &&& after == before
                &&& next_exchange is Over
                &&& action == (Action::Refuse { error: Error::Reqwest(error) })
            },
            _ => false,
        }
    }
}

impl<S, D> Client<S, D> {
    /// The client for requests with no proxy.
    pub fn direct(&self) -> (client: &reqwest::Client)
        ensures
            *client == self.direct_client(),
    {
        &self.direct
    }

    /// The client that sends the requests under an identity.
    pub fn client(&self, identity: usize) -> (client: &reqwest::Client)
        requires
            identity < self.count(),
        ensures
            *client == self.client_at(identity as int),
    {
        &self.slots[identity].client
    }

    /// How long an exhausted identity stays out of rotation when the server gives no reset time.
    pub fn cooldown(&self) -> (cooldown: Duration)
        ensures
            cooldown == self.cooldown_set(),
    {
        self.cooldown
    }

    /// What the client does when every identity is cooling.
    pub fn exhausted(&self) -> (policy: Exhausted)
        ensures
            policy == self.policy(),
    {
        self.on_exhausted
    }
}

impl<S: Fn(&mut Request), D> Client<S, D> {
    /// Stamp an identity onto a request before it is sent. See [`Identity::apply`].
    pub fn prepare(&self, identity: usize, request: &mut Request) -> (prepared: Result<
        (),
        ApplyError,
    >)
        requires
            identity < self.count(),
            self.identity_at(identity as int).stamp_set() matches Some(stamp) ==> forall|
                reached: &mut Request,
            |
                fields_applied(
                    self.identity_at(identity as int).header_entries(),
                    self.identity_at(identity as int).query_pairs(),
                    *old(request),
                    *reached,
                ) ==> #[trigger] call_requires(stamp, (reached,)),
        ensures
            prepared is Ok ==> match self.identity_at(identity as int).stamp_set() {
                None => fields_applied(
                    self.identity_at(identity as int).header_entries(),
                    self.identity_at(identity as int).query_pairs(),
                    *old(request),
                    *final(request),
                ),
                Some(stamp) => exists|reached: &mut Request|
                    {
                        &&& #[trigger] call_ensures(stamp, (reached,), ())
                        &&& fields_applied(
                            self.identity_at(identity as int).header_entries(),
                            self.identity_at(identity as int).query_pairs(),
                            *old(request),
                            *reached,
                        )
                        &&& *final(reached) == *final(request)
                    },
            },
            headers_fit(self.identity_at(identity as int).header_entries(), *old(request))
                && query_fits(
                self.identity_at(identity as int).query_pairs(),
                request_url(*old(request)),
            ) ==> prepared is Ok,
            all_sensitive(self.identity_at(identity as int).header_entries()),
            prepared matches Err(e) ==> match e {
                ApplyError::HeadersFull => !headers_fit(
                    self.identity_at(identity as int).header_entries(),
                    *old(request),
                ),
                ApplyError::UrlTooLong => !query_fits(
                    self.identity_at(identity as int).query_pairs(),
                    request_url(*old(request)),
                ),
            },
    {
        self.slots[identity].identity.apply(request)
    }
}

impl<S, D: Detector> Client<S, D> {
    /// Whether a response is to be buffered before it is classified.
    pub fn needs_body(&self) -> (needs: bool)
        ensures
            needs == self.detector_set().reads_body(),
    {
        self.detector.needs_body()
    }

    /// Classify a response. A detector that does not need the body does not get it.
    pub fn classify(&self, status: StatusCode, headers: &HeaderMap, body: &[u8]) -> (verdict: Verdict)
        requires
            self.detector_set().can_classify(status, *headers, body@),
        ensures
            self.detector_set().concludes(status, *headers, body@, verdict),
            !self.detector_set().reads_body() ==> self.detector_set().concludes(
                status,
                *headers,
                Seq::empty(),
                verdict,
            ),
    {
        if self.detector.needs_body() {
            return self.detector.classify(status, headers, body);
        }
        let nothing = slice_subrange(body, 0, 0);
        let verdict = self.detector.classify(status, headers, nothing);
        assert(nothing@ =~= Seq::empty());
        assert(self.detector.concludes(status, *headers, body@, verdict)
            == self.detector.concludes(status, *headers, nothing@, verdict));
        verdict
    }

    /// Classify a response that was read to the end, and put it together again as it was.
    pub fn conclude(&self, buffered: Buffered) -> (concluded: (Response, Verdict))
        requires
            self.detector_set().can_classify(buffered.status, buffered.headers, buffered.body@),
        ensures
            response_parts(concluded.0) == buffered.parts(),
            response_parts(concluded.0).status == status_number(buffered.status),
            response_parts(concluded.0).version == buffered.version,
            response_parts(concluded.0).headers == header_entries(buffered.headers),
            response_parts(concluded.0).url == buffered.url,
            response_parts(concluded.0).extensions == buffered.extensions,
            response_parts(concluded.0).body == buffered.body@,
            self.detector_set().concludes(
                buffered.status,
                buffered.headers,
                buffered.body@,
                concluded.1,
            ),
    {
        let verdict = self.classify(
            buffered.status,
            &buffered.headers,
            buffered.body.as_slice(),
        );
        (rebuild(buffered), verdict)
    }
}

impl<S> Client<S, DefaultDetector> {
    /// Start configuring a client.
    pub fn builder<C>() -> (builder: ClientBuilder<S, DefaultDetector, C>)
        ensures
            builder.identities_added() == Seq::<Identity<S>>::empty(),
            builder.detector_set() == DefaultDetector,
            duration_nanos(builder.cooldown_set()) == 60_000_000_000,
            builder.policy() is Wait,
            builder.configure_set() is None,
    {
        ClientBuilder::new()
    }
}

impl<S, D: Detector> Client<S, D> {
    /// Wrap an existing client with no identities. With none, the detector is never asked.
    pub fn wrap(direct: reqwest::Client, detector: D) -> (client: Self)
        ensures
            client.direct_client() == direct,
            client.count() == 0,
            client.detector_set() == detector,
            duration_nanos(client.cooldown_set()) == 60_000_000_000,
            client.policy() is Wait,
    {
        Client {
            direct,
            slots: Vec::new(),
            detector,
            cooldown: Duration::from_secs(DEFAULT_COOLDOWN_SECS),
            on_exhausted: Exhausted::default(),
        }
    }
}

impl<S> From<reqwest::Client> for Client<S, DefaultDetector> {
    /// Wrap an existing client with no identities. Every request passes straight through.
    fn from(direct: reqwest::Client) -> (client: Self)
        ensures
            client.direct_client() == direct,
            client.count() == 0,
            client.detector_set() == DefaultDetector,
            duration_nanos(client.cooldown_set()) == 60_000_000_000,
            client.policy() is Wait,
    {
        Client::wrap(direct, DefaultDetector)
    }
}

impl<S> vstd::std_specs::convert::FromSpecImpl<reqwest::Client> for Client<S, DefaultDetector> {
    open spec fn obeys_from_spec() -> bool {
        false
    }

    open spec fn from_spec(direct: reqwest::Client) -> Self {
        arbitrary()
    }
}

/// Builder for [`Client`].
pub struct ClientBuilder<S, D, C> {
    identities: Vec<Identity<S>>,
    detector: D,
    cooldown: Duration,
    on_exhausted: Exhausted,
    configure: Option<C>,
}

impl<S, C> ClientBuilder<S, DefaultDetector, C> {
    /// A builder with no identities, the [`DefaultDetector`], a 60 second cooldown,
    /// and [`Exhausted::Wait`].
    pub fn new() -> (builder: Self)
        ensures
            builder.identities_added() == Seq::<Identity<S>>::empty(),
            builder.detector_set() == DefaultDetector,
            duration_nanos(builder.cooldown_set()) == 60_000_000_000,
            builder.policy() is Wait,
            builder.configure_set() is None,
    {
        ClientBuilder {
            identities: Vec::new(),
            detector: DefaultDetector,
            cooldown: Duration::from_secs(DEFAULT_COOLDOWN_SECS),
            on_exhausted: Exhausted::default(),
            configure: None,
        }
    }
}

impl<S, C> Default for ClientBuilder<S, DefaultDetector, C> {
    fn default() -> (builder: Self)
        ensures
            builder.identities_added() == Seq::<Identity<S>>::empty(),
            builder.detector_set() == DefaultDetector,
            duration_nanos(builder.cooldown_set()) == 60_000_000_000,
            builder.policy() is Wait,
            builder.configure_set() is None,
    {
        ClientBuilder::new()
    }
}

impl<S, D, C> ClientBuilder<S, D, C> {
    /// The identities that were added, in rotation order.
    pub closed spec fn identities_added(&self) -> Seq<Identity<S>> {
        self.identities@
    }

    /// The detector that was set.
    pub closed spec fn detector_set(&self) -> D {
        self.detector
    }

    /// The cooldown that was set.
    pub closed spec fn cooldown_set(&self) -> Duration {
        self.cooldown
    }

    /// The policy that was set.
    pub closed spec fn policy(&self) -> Exhausted {
        self.on_exhausted
    }

    /// The configuration that was set.
    pub closed spec fn configure_set(&self) -> Option<C> {
        self.configure
    }

    /// Add one identity to the pool. Order is rotation order.
    pub fn identity(self, identity: Identity<S>) -> (builder: Self)
        ensures
            builder.identities_added() == self.identities_added().push(identity),
            builder.detector_set() == self.detector_set(),
            builder.cooldown_set() == self.cooldown_set(),
            builder.policy() == self.policy(),
            builder.configure_set() == self.configure_set(),
    {
        let mut builder = self;
        builder.identities.push(identity);
        builder
    }

    /// Add several identities to the pool.
    pub fn identities(self, identities: Vec<Identity<S>>) -> (builder: Self)
        ensures
            builder.identities_added() == self.identities_added() + identities@,
            builder.detector_set() == self.detector_set(),
            builder.cooldown_set() == self.cooldown_set(),
            builder.policy() == self.policy(),
            builder.configure_set() == self.configure_set(),
    {
        let mut builder = self;
        let mut more = identities;
        builder.identities.append(&mut more);
        builder
    }

    /// Replace the [`DefaultDetector`].
    pub fn detector<E: Detector>(self, detector: E) -> (builder: ClientBuilder<S, E, C>)
        ensures
            builder.identities_added() == self.identities_added(),
            builder.detector_set() == detector,
            builder.cooldown_set() == self.cooldown_set(),
            builder.policy() == self.policy(),
            builder.configure_set() == self.configure_set(),
    {
        ClientBuilder {
            identities: self.identities,
            detector,
            cooldown: self.cooldown,
            on_exhausted: self.on_exhausted,
            configure: self.configure,
        }
    }

    /// How long an exhausted identity stays out of rotation when the server
    /// gives no reset time. Default 60 seconds.
    ///
    /// This is not a delay before rotating. Rotation is immediate. It only
    /// decides when the exhausted identity is tried again. A `retry_after`
    /// from the detector always takes precedence.
    pub fn cooldown(self, cooldown: Duration) -> (builder: Self)
        ensures
            builder.identities_added() == self.identities_added(),
            builder.detector_set() == self.detector_set(),
            builder.cooldown_set() == cooldown,
            builder.policy() == self.policy(),
            builder.configure_set() == self.configure_set(),
    {
        let mut builder = self;
        builder.cooldown = cooldown;
        builder
    }

    /// What to do when every identity is cooling. Default [`Exhausted::Wait`].
    pub fn exhausted(self, policy: Exhausted) -> (builder: Self)
        ensures
            builder.identities_added() == self.identities_added(),
            builder.detector_set() == self.detector_set(),
            builder.cooldown_set() == self.cooldown_set(),
            builder.policy() == policy,
            builder.configure_set() == self.configure_set(),
    {
        let mut builder = self;
        builder.on_exhausted = policy;
        builder
    }

    /// Configure every `reqwest::Client` the pool builds: timeouts, TLS,
    /// default headers, and so on. Runs once per identity with a proxy plus once
    /// for the direct client.
    pub fn configure(self, configure: C) -> (builder: Self)
        ensures
            builder.identities_added() == self.identities_added(),
            builder.detector_set() == self.detector_set(),
            builder.cooldown_set() == self.cooldown_set(),
            builder.policy() == self.policy(),
            builder.configure_set() == Some(configure),
    {
        let mut builder = self;
        builder.configure = Some(configure);
        builder
    }
}

/// A builder for a client with the default settings, as the configuration leaves them.
pub open spec fn is_configured<C: Fn(reqwest::ClientBuilder) -> reqwest::ClientBuilder>(
    configure: Option<C>,
    builder: reqwest::ClientBuilder,
) -> bool {
    match configure {
        None => is_fresh_builder(builder),
        Some(f) => exists|fresh: reqwest::ClientBuilder|
            is_fresh_builder(fresh) && #[trigger] call_ensures(f, (fresh,), builder),
    }
}

/// What may come of building the client for requests with no proxy.
pub open spec fn direct_outcome<C: Fn(reqwest::ClientBuilder) -> reqwest::ClientBuilder>(
    configure: Option<C>,
    built: Result<reqwest::Client, reqwest::Error>,
) -> bool {
    exists|builder: reqwest::ClientBuilder|
        is_configured(configure, builder) && #[trigger] may_build(builder, built)
}

/// What may come of building the client for requests through a proxy.
pub open spec fn proxied_outcome<C: Fn(reqwest::ClientBuilder) -> reqwest::ClientBuilder>(
    configure: Option<C>,
    proxy: Proxy,
    built: Result<reqwest::Client, reqwest::Error>,
) -> bool {
    exists|builder: reqwest::ClientBuilder|
        is_configured(configure, builder) && #[trigger] may_build(
            proxied_builder(builder, proxy),
            built,
        )
}

/// The direct client could be built, and so could those of all identities with a proxy before the
/// given one.
pub open spec fn can_build_until<S, C: Fn(reqwest::ClientBuilder) -> reqwest::ClientBuilder>(
    configure: Option<C>,
    identities: Seq<Identity<S>>,
    end: int,
) -> bool {
    &&& exists|client: reqwest::Client| #[trigger] direct_outcome(configure, Ok(client))
    &&& forall|j: int|
        0 <= j < end && (#[trigger] identities[j]).proxy_set() is Some ==> exists|
            client: reqwest::Client,
        | #[trigger]
            proxied_outcome(configure, identities[j].proxy_set()->0, Ok(client))
}

impl<S, D, C: Fn(reqwest::ClientBuilder) -> reqwest::ClientBuilder> ClientBuilder<S, D, C> {
    /// Build the client. Fails only if `reqwest` fails to build a client, with the first failure.
    ///
    /// Every identity with a proxy gets a client of its own; the others share the direct one.
    pub fn build(self) -> (built: Result<Client<S, D>, reqwest::Error>)
        requires
            self.configure_set() matches Some(f) ==> forall|fresh: reqwest::ClientBuilder|
                is_fresh_builder(fresh) ==> #[trigger] call_requires(f, (fresh,)),
        ensures
            match built {
                Ok(client) => {
                    &&& direct_outcome(self.configure_set(), Ok(client.direct_client()))
                    &&& client.count() == self.identities_added().len()
                    &&& client.detector_set() == self.detector_set()
                    &&& client.cooldown_set() == self.cooldown_set()
                    &&& client.policy() == self.policy()
                    &&& forall|i: int|
                        0 <= i < client.count() ==> (#[trigger] client.identity_at(i))
                            == self.identities_added()[i]
                    &&& forall|i: int|
                        0 <= i < client.count() ==> match self.identities_added()[i].proxy_set() {
                            None => #[trigger] client.client_at(i) == client.direct_client(),
                            Some(proxy) => proxied_outcome(
                                self.configure_set(),
                                proxy,
                                Ok(client.client_at(i)),
                            ),
                        }
                },
                Err(e) => {
                    ||| direct_outcome(self.configure_set(), Err(e))
                    ||| exists|i: int|
                        {
                            &&& 0 <= i < self.identities_added().len()
                            &&& (#[trigger] self.identities_added()[i]).proxy_set() is Some
                            &&& proxied_outcome(
                                self.configure_set(),
                                self.identities_added()[i].proxy_set()->0,
                                Err(e),
                            )
                            &&& can_build_until(
                                self.configure_set(),
                                self.identities_added(),
                                i,
                            )
                        }
                },
            },
    {
        let ghost added = self.identities@;
        let ghost configuration = self.configure;
        let direct = match build_client(configured(&self.configure)) {
            Ok(client) => client,
            Err(e) => {
                return Err(e);
            },
        };
        let mut slots: Vec<Slot<S>> = Vec::new();
        for identity in iter: self.identities.into_iter()
            invariant
                iter.seq() == added,
                self.configure == configuration,
                configuration matches Some(f) ==> forall|fresh: reqwest::ClientBuilder|
                    is_fresh_builder(fresh) ==> #[trigger] call_requires(f, (fresh,)),
                direct_outcome(configuration, Ok(direct)),
                slots.len() == iter.index(),
                forall|i: int| 0 <= i < slots.len() ==> (#[trigger] slots@[i]).identity == added[i],
                forall|i: int|
                    0 <= i < slots.len() ==> match added[i].proxy_set() {
                        None => (#[trigger] slots@[i]).client == direct,
                        Some(proxy) => proxied_outcome(configuration, proxy, Ok(slots@[i].client)),
                    },
        {
            let ghost at = iter.index();
            let client = match identity.proxy() {
                Some(proxy) => match build_client(
                    with_proxy(configured(&self.configure), proxy.clone()),
                ) {
                    Ok(client) => client,
                    Err(e) => {
                        proof {
                            assert(added[at].proxy_set() is Some);
                            assert forall|j: int|
                                0 <= j < at && (#[trigger] added[j]).proxy_set() is Some implies exists|
                                client: reqwest::Client,
                            | #[trigger]
                                proxied_outcome(
                                    configuration,
                                    added[j].proxy_set()->0,
                                    Ok(client),
                                ) by {
                                assert(proxied_outcome(
                                    configuration,
                                    added[j].proxy_set()->0,
                                    Ok(slots@[j].client),
                                ));
                            }
                            assert(can_build_until(configuration, added, at));
                        }
                        return Err(e);
                    },
                },
                None => direct.clone(),
            };
            slots.push(Slot { identity, client });
        }
        Ok(
            Client {
                direct,
                slots,
                detector: self.detector,
                cooldown: self.cooldown,
                on_exhausted: self.on_exhausted,
            },
        )
    }
}

/// Every client is built of the default settings as the configuration leaves them, with the proxy
/// added behind if there is one. Without a configuration the default settings stay as they are.
pub proof fn law_every_client_is_configured<
    C: Fn(reqwest::ClientBuilder) -> reqwest::ClientBuilder,
>(configure: Option<C>, proxy: Proxy, built: Result<reqwest::Client, reqwest::Error>)
    ensures
        direct_outcome(configure, built) ==> exists|
            fresh: reqwest::ClientBuilder,
            builder: reqwest::ClientBuilder,
        |
            {
                &&& #[trigger] is_fresh_builder(fresh)
                &&& match configure {
                    Some(f) => call_ensures(f, (fresh,), builder),
                    None => builder == fresh,
                }
                &&& #[trigger] may_build(builder, built)
            },
        proxied_outcome(configure, proxy, built) ==> exists|
            fresh: reqwest::ClientBuilder,
            builder: reqwest::ClientBuilder,
        |
            {
                &&& #[trigger] is_fresh_builder(fresh)
                &&& match configure {
                    Some(f) => call_ensures(f, (fresh,), builder),
                    None => builder == fresh,
                }
                &&& #[trigger] may_build(proxied_builder(builder, proxy), built)
            },
{
    if direct_outcome(configure, built) {
        let builder = choose|builder: reqwest::ClientBuilder|
            is_configured(configure, builder) && #[trigger] may_build(builder, built);
        lemma_configured(configure, builder);
    }
    if proxied_outcome(configure, proxy, built) {
        let builder = choose|builder: reqwest::ClientBuilder|
            is_configured(configure, builder) && #[trigger] may_build(
                proxied_builder(builder, proxy),
                built,
            );
        lemma_configured(configure, builder);
    }
}

/// What a configured builder comes from.
proof fn lemma_configured<C: Fn(reqwest::ClientBuilder) -> reqwest::ClientBuilder>(
    configure: Option<C>,
    builder: reqwest::ClientBuilder,
)
    requires
        is_configured(configure, builder),
    ensures
        exists|fresh: reqwest::ClientBuilder| #[trigger]
            is_fresh_builder(fresh) && match configure {
                Some(f) => call_ensures(f, (fresh,), builder),
                None => builder == fresh,
            },
{
    match configure {
        Some(f) => {
            let fresh = choose|fresh: reqwest::ClientBuilder|
                is_fresh_builder(fresh) && #[trigger] call_ensures(f, (fresh,), builder);
            assert(is_fresh_builder(fresh));
        },
        None => {
            assert(is_fresh_builder(builder));
        },
    }
}

/// A failure is the first one: the direct client and those of all earlier identities with a proxy
/// could be built.
pub proof fn law_earlier_clients_could_be_built<
    S,
    C: Fn(reqwest::ClientBuilder) -> reqwest::ClientBuilder,
>(configure: Option<C>, identities: Seq<Identity<S>>, end: int, j: int, proxy: Proxy)
    requires
        can_build_until(configure, identities, end),
    ensures
        exists|client: reqwest::Client| #[trigger] direct_outcome(configure, Ok(client)),
        0 <= j < end && identities[j].proxy_set() == Some(proxy) ==> exists|
            client: reqwest::Client,
        | #[trigger]
            proxied_outcome(configure, proxy, Ok(client)),
{
    if 0 <= j < end && identities[j].proxy_set() == Some(proxy) {
        assert(identities[j].proxy_set() is Some);
    }
}

/// A builder with the default settings, as the configuration leaves them.
fn configured<C: Fn(reqwest::ClientBuilder) -> reqwest::ClientBuilder>(
    configure: &Option<C>,
) -> (builder: reqwest::ClientBuilder)
    requires
        *configure matches Some(f) ==> forall|fresh: reqwest::ClientBuilder|
            is_fresh_builder(fresh) ==> #[trigger] call_requires(f, (fresh,)),
    ensures
        is_configured(*configure, builder),
{
    match configure {
        Some(f) => f(fresh_builder()),
        None => fresh_builder(),
    }
}

} // verus!
