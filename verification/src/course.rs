//! The course of a request, from the first step to the last, and what holds of all of them.

use std::time::Duration;

use reqwest::Request;

use vstd::prelude::*;

use crate::client::{Action, Client, Event, Exchange, Exhausted};
use crate::detector::Verdict;
use crate::error::Error;
use crate::headers::header_entries;
use crate::request::{
    request_headers, request_replayable, request_rest, request_url, same_request,
};
use crate::rotation::RotationState;
use crate::time::{capped_nanos, duration_nanos, MAX_DURATION_NANOS};

verus! {

/// One step of a request: what it was before, what happened when, and what it is and does after.
/// The rotation is shared with other requests, so that of one step need not be that of the last.
pub struct Step {
    pub before: RotationState,
    pub exchange: Exchange,
    pub event: Event,
    pub now: nat,
    pub after: RotationState,
    pub next: Exchange,
    pub action: Action,
}

impl<S, D> Client<S, D> {
    /// The step is one that [`Client::resume`] takes.
    pub open spec fn takes(&self, step: Step) -> bool {
        self.resumed(
            step.before,
            step.now,
            step.exchange,
            step.event,
            step.after,
            step.next,
            step.action,
        )
    }

    /// The steps of one request, from where it stands at first on, each going on from the last.
    pub open spec fn is_run(&self, first: Exchange, steps: Seq<Step>) -> bool {
        &&& forall|i: int| 0 <= i < steps.len() ==> self.takes(#[trigger] steps[i])
        &&& steps.len() > 0 ==> steps[0].exchange == first
        &&& forall|i: int, j: int|
            0 <= i && j == i + 1 && j < steps.len() ==> (#[trigger] steps[j]).exchange == (
            #[trigger] steps[i]).next
    }
}

/// The requests that an exchange keeps are the same as the one it is about, and its template can be
/// cloned.
pub open spec fn keeps_request(exchange: Exchange, request: Request) -> bool {
    match exchange {
        Exchange::Waiting { next, template } => same_request(request, next)
            && keeps_template(template, request),
        Exchange::Flying { template, .. } => keeps_template(template, request),
        Exchange::Over => true,
    }
}

/// A template is the same request and can be cloned. There is none if the request cannot.
pub open spec fn keeps_template(template: Option<Request>, request: Request) -> bool {
    match template {
        Some(copy) => same_request(request, copy) && request_replayable(copy),
        None => !request_replayable(request),
    }
}

/// There is nothing to send again.
pub open spec fn keeps_no_template(exchange: Exchange) -> bool {
    match exchange {
        Exchange::Waiting { template, .. } => template is None,
        Exchange::Flying { template, .. } => template is None,
        Exchange::Over => true,
    }
}

/// Whatever happens, a request that is sent again is the same request, and an exchange keeps it as
/// it was.
pub proof fn law_same_request_is_sent<S, D>(
    client: &Client<S, D>,
    request: Request,
    first: Exchange,
    steps: Seq<Step>,
    i: int,
)
    requires
        keeps_request(first, request),
        client.is_run(first, steps),
        0 <= i < steps.len(),
    ensures
        keeps_request(steps[i].next, request),
        steps[i].action matches Action::Send { request: sent, .. } ==> same_request(request, sent),
    decreases i,
{
    if i > 0 {
        law_same_request_is_sent(client, request, first, steps, i - 1);
        assert(steps[i].exchange == steps[i - 1].next);
    }
    assert(keeps_request(steps[i].exchange, request));
}

/// Starting a request keeps it as it is, and what is sent first is the request itself.
pub proof fn law_execute_keeps_the_request<S, D>(
    client: &Client<S, D>,
    before: RotationState,
    now: nat,
    request: Request,
    template: Option<Request>,
    after: RotationState,
    exchange: Exchange,
    action: Action,
)
    requires
        template is Some <==> request_replayable(request),
        template matches Some(copy) ==> same_request(request, copy),
        client.dispatched(before, now, request, template, after, exchange, action),
    ensures
        keeps_request(exchange, request),
        action matches Action::Send { request: sent, .. } ==> sent == request,
{
}

/// Only a rejection is sent again: after an answer there is another send only if the answer was the
/// rate-limit rejection of a request that can be cloned.
pub proof fn law_only_exhausted_is_sent_again<S, D>(client: &Client<S, D>, step: Step)
    requires
        client.takes(step),
        step.action is Send,
    ensures
        step.event matches Event::Answered { verdict } ==> verdict is Exhausted,
        step.event !is Failed,
        step.event is Answered ==> (step.exchange matches Exchange::Flying {
            template: Some(copy),
            ..
        } && request_replayable(copy)),
{
}

/// A request that cannot be cloned is sent at most once, and every answer to it is returned, even if
/// it is the rejection.
pub proof fn law_stream_is_sent_once<S, D>(
    client: &Client<S, D>,
    first: Exchange,
    steps: Seq<Step>,
    i: int,
    j: int,
)
    requires
        keeps_no_template(first),
        client.is_run(first, steps),
        0 <= i < steps.len(),
        0 <= j < steps.len(),
    ensures
        steps[i].action is Send && steps[j].action is Send ==> i == j,
        first is Flying ==> steps[i].action !is Send,
        steps[i].event is Answered ==> steps[i].action is Deliver,
{
    lemma_stream(client, first, steps, i);
    lemma_stream(client, first, steps, j);
    if steps[i].action is Send && i < j {
        lemma_after_send(client, first, steps, i, j);
    }
    if steps[j].action is Send && j < i {
        lemma_after_send(client, first, steps, j, i);
    }
}

/// The rejection of a request that cannot be cloned is returned, and its identity cools all the
/// same.
pub proof fn law_rejected_stream_still_cools<S, D>(
    client: &Client<S, D>,
    step: Step,
    identity: usize,
    retry_after: Option<Duration>,
)
    requires
        step.exchange == (Exchange::Flying { identity, template: None }),
        step.event == (Event::Answered { verdict: Verdict::Exhausted { retry_after } }),
        client.takes(step),
    ensures
        step.action is Deliver,
        step.after == client.cooled(step.before, identity as int, retry_after, step.now),
{
}

/// An error is returned as it is, and no identity cools for it.
pub proof fn law_errors_pass_through<S, D>(client: &Client<S, D>, step: Step, error: reqwest::Error)
    requires
        step.event == (Event::Failed { error }),
        client.takes(step),
    ensures
        step.action == (Action::Refuse { error: Error::Reqwest(error) }),
        step.after == step.before,
{
}

/// While a request that cannot be cloned is on its way it waits, and then it flies.
proof fn lemma_stream<S, D>(client: &Client<S, D>, first: Exchange, steps: Seq<Step>, i: int)
    requires
        keeps_no_template(first),
        client.is_run(first, steps),
        0 <= i < steps.len(),
    ensures
        keeps_no_template(steps[i].exchange),
        keeps_no_template(steps[i].next),
        steps[i].exchange is Flying ==> steps[i].next is Over && steps[i].action !is Send,
        steps[i].event is Answered ==> steps[i].action is Deliver,
        first is Flying ==> steps[i].exchange !is Waiting,
        steps[i].next is Waiting ==> steps[i].exchange is Waiting,
    decreases i,
{
    if i > 0 {
        lemma_stream(client, first, steps, i - 1);
        assert(steps[i].exchange == steps[i - 1].next);
    }
}

/// Once a request that cannot be cloned was sent, it is not sent any more.
proof fn lemma_after_send<S, D>(
    client: &Client<S, D>,
    first: Exchange,
    steps: Seq<Step>,
    i: int,
    j: int,
)
    requires
        keeps_no_template(first),
        client.is_run(first, steps),
        0 <= i < j < steps.len(),
        steps[i].action is Send,
    ensures
        steps[j].exchange !is Waiting,
        steps[j].action !is Send,
        steps[j].next is Over,
    decreases j,
{
    lemma_stream(client, first, steps, i);
    lemma_stream(client, first, steps, j);
    assert(steps[j].exchange == steps[j - 1].next);
    if j == i + 1 {
        assert(steps[i].next is Flying);
    } else {
        lemma_after_send(client, first, steps, i, j - 1);
    }
}

/// Nothing more is done for a request once its response or an error was returned.
pub proof fn law_the_end_is_final<S, D>(
    client: &Client<S, D>,
    first: Exchange,
    steps: Seq<Step>,
    i: int,
)
    requires
        client.is_run(first, steps),
        0 <= i < steps.len(),
        steps[i].action is Deliver || steps[i].action is Refuse,
    ensures
        steps[i].next is Over,
        i == steps.len() - 1,
{
    if i < steps.len() - 1 {
        assert(steps[i + 1].exchange == steps[i].next);
        assert(client.takes(steps[i + 1]));
    }
}

/// `Exhausted::Error` returns the error at once and never sleeps, `Exhausted::Wait` sleeps and never
/// returns it; either only while every identity is cooling, and with the time to the soonest reset.
pub proof fn law_policy_is_honoured<S, D>(
    client: &Client<S, D>,
    before: RotationState,
    now: nat,
    request: Request,
    template: Option<Request>,
    after: RotationState,
    exchange: Exchange,
    action: Action,
    soonest: u128,
)
    requires
        before.wf(),
        client.dispatched(before, now, request, template, after, exchange, action),
        before.all_cooling(now) ==> before.is_soonest(soonest),
    ensures
        action is Send <==> !before.all_cooling(now),
        action is Sleep <==> before.all_cooling(now) && client.policy() is Wait,
        action is Refuse <==> before.all_cooling(now) && client.policy() is Error,
        action matches Action::Sleep { wait } ==> duration_nanos(wait) == capped_nanos(
            (soonest - now) as nat,
        ),
        action matches Action::Refuse { error: Error::AllExhausted { retry_after } }
            ==> duration_nanos(retry_after) == capped_nanos((soonest - now) as nat),
{
    crate::rotation::law_next_ready_is_round_robin(before, now);
    if before.all_cooling(now) {
        assert forall|s: u128| before.is_soonest(s) implies s == soonest by {
            crate::rotation::law_soonest_reset_is_unique(before, s, soonest);
        }
    }
}

/// A request that had to wait is sent once the wait is over, unless an identity was cooled meanwhile
/// or the wait was cut off at the longest `Duration`.
pub proof fn law_wait_ends_with_a_send<S, D>(
    client: &Client<S, D>,
    before: RotationState,
    now: nat,
    request: Request,
    template: Option<Request>,
    exchange: Exchange,
    wait: Duration,
    step: Step,
)
    requires
        before.wf(),
        client.dispatched(
            before,
            now,
            request,
            template,
            before,
            exchange,
            Action::Sleep { wait },
        ),
        duration_nanos(wait) < MAX_DURATION_NANOS,
        client.takes(step),
        step.before == before,
        step.exchange == exchange,
        step.now >= now + duration_nanos(wait),
    ensures
        step.action matches Action::Send { request: sent, .. } && sent == request,
{
    let soonest = choose|soonest: u128| #[trigger]
        before.is_soonest(soonest) && duration_nanos(wait) == capped_nanos((soonest - now) as nat);
    crate::rotation::law_soonest_reset_ends_the_wait(before, soonest, now, step.now);
}

/// A response that used the last of the quota is returned, and the next request goes out under
/// another identity while that one cools.
pub proof fn law_depleted_identity_rests<S, D>(
    client: &Client<S, D>,
    step: Step,
    identity: usize,
    retry_after: Option<Duration>,
    later: nat,
)
    requires
        step.before.wf(),
        identity < step.before.len(),
        step.exchange matches Exchange::Flying { identity: flying, .. } && flying == identity,
        step.event == (Event::Answered { verdict: Verdict::Depleted { retry_after } }),
        client.takes(step),
        later < step.now + client.wait_nanos(retry_after) <= u128::MAX,
    ensures
        step.action is Deliver,
        step.after.next_ready(later) != Some(identity as int),
{
    crate::rotation::law_cooled_identity_rests(
        step.before,
        identity as int,
        (step.now + client.wait_nanos(retry_after)) as u128,
        later,
    );
}

/// A rejected request that can be cloned is sent again at once, under an identity other than the
/// rejected one, as long as there is one that is not cooling, however short the wait is.
pub proof fn law_exhausted_rotates_at_once<S, D>(
    client: &Client<S, D>,
    step: Step,
    identity: usize,
    template: Request,
    retry_after: Option<Duration>,
    other: int,
)
    requires
        step.before.wf(),
        identity < step.before.len(),
        step.exchange == (Exchange::Flying { identity, template: Some(template) }),
        request_replayable(template),
        step.event == (Event::Answered { verdict: Verdict::Exhausted { retry_after } }),
        client.takes(step),
        0 <= other < step.before.len(),
        other != identity,
        !step.before.cooling(other, step.now),
    ensures
        step.action matches Action::Send { identity: next, request } && next != identity
            && same_request(template, request),
{
    let until = (step.now + client.wait_nanos(retry_after)) as u128;
    crate::rotation::law_rotation_is_immediate(
        step.before,
        identity as int,
        until,
        other,
        step.now,
    );
}

/// A `retry_after` from the detector always takes precedence over the cooldown.
pub proof fn law_retry_after_takes_precedence<S, D>(
    client: &Client<S, D>,
    retry_after: Option<Duration>,
)
    ensures
        retry_after matches Some(wait) ==> client.wait_nanos(retry_after) == duration_nanos(wait),
        retry_after is None ==> client.wait_nanos(retry_after) == duration_nanos(
            client.cooldown_set(),
        ),
{
}

/// A request goes out at once if an identity has no reset that is still to come: under the first such
/// identity, going round from the starting point. Otherwise the client sleeps until the soonest reset
/// or tells the time to it in an error, as the policy says, and no reset changes.
pub proof fn law_request_goes_to_the_first_one_ready<S, D>(
    client: &Client<S, D>,
    before: RotationState,
    now: nat,
    next: Request,
    template: Option<Request>,
    after: RotationState,
    exchange: Exchange,
    action: Action,
)
    requires
        0 <= before.active < before.until.len(),
        client.dispatched(before, now, next, template, after, exchange, action),
    ensures
        if exists|j: int|
            0 <= j < before.until.len() && !(#[trigger] before.until[j] matches Some(reset) && reset
                > now) {
            &&& action matches Action::Send { identity, request } && {
                &&& request == next
                &&& identity < before.until.len()
                &&& !(before.until[identity as int] matches Some(reset) && reset > now)
                &&& forall|j: int|
                    0 <= j < before.until.len() && (if before.active <= identity {
                        before.active <= j < identity
                    } else {
                        before.active <= j || j < identity
                    }) ==> (#[trigger] before.until[j] matches Some(reset) && reset > now)
                &&& after.until == before.until.update(identity as int, None)
                &&& after.active == identity
                &&& exchange == (Exchange::Flying { identity, template })
            }
        } else {
            &&& after.until == before.until
            &&& after.active == before.active
            &&& match client.policy() {
                Exhausted::Wait => {
                    &&& exchange == (Exchange::Waiting { next, template })
                    &&& action matches Action::Sleep { wait } && exists|k: int|
                        0 <= k < before.until.len() && (#[trigger] before.until[k] matches Some(soonest)
                            && duration_nanos(wait) == (if soonest - now
                            <= 18_446_744_073_709_551_615_999_999_999 {
                            soonest - now
                        } else {
                            18_446_744_073_709_551_615_999_999_999
                        }) && forall|j: int|
                            0 <= j < before.until.len() ==> (#[trigger] before.until[j] matches Some(
                                reset,
                            ) && soonest <= reset))
                },
                Exhausted::Error => {
                    &&& exchange is Over
                    &&& action matches Action::Refuse { error: Error::AllExhausted { retry_after } }
                        && exists|k: int|
                        0 <= k < before.until.len() && (#[trigger] before.until[k] matches Some(soonest)
                            && duration_nanos(retry_after) == (if soonest - now
                            <= 18_446_744_073_709_551_615_999_999_999 {
                            soonest - now
                        } else {
                            18_446_744_073_709_551_615_999_999_999
                        }) && forall|j: int|
                            0 <= j < before.until.len() ==> (#[trigger] before.until[j] matches Some(
                                reset,
                            ) && soonest <= reset))
                },
            }
        },
{
    crate::rotation::law_next_is_the_first_one_ready(before, now);
    match before.next_ready(now) {
        Some(i) => {
            assert(!(before.until[i] matches Some(reset) && reset > now));
        },
        None => {
            assert forall|wait: Duration| Client::<S, D>::until_soonest(before, now, wait) implies exists|
                k: int,
            |
                0 <= k < before.until.len() && (#[trigger] before.until[k] matches Some(soonest)
                    && duration_nanos(wait) == (if soonest - now
                    <= 18_446_744_073_709_551_615_999_999_999 {
                    soonest - now
                } else {
                    18_446_744_073_709_551_615_999_999_999
                }) && forall|j: int|
                    0 <= j < before.until.len() ==> (#[trigger] before.until[j] matches Some(reset)
                        && soonest <= reset)) by {
                let soonest = choose|soonest: u128| #[trigger]
                    before.is_soonest(soonest) && duration_nanos(wait) == capped_nanos(
                        (soonest - now) as nat,
                    );
                let k = choose|k: int|
                    0 <= k < before.len() && #[trigger] before.until[k] == Some(soonest);
                assert(before.until[k] matches Some(reset) && reset > now);
            }
        },
    }
}

/// A response that says nothing about the quota changes nothing: it is returned, whether or not the
/// request could be sent again, and every identity is in or out of rotation as it was before.
pub proof fn law_fine_response_changes_nothing<S, D>(
    client: &Client<S, D>,
    before: RotationState,
    now: nat,
    identity: usize,
    template: Option<Request>,
    after: RotationState,
    next: Exchange,
    action: Action,
)
    requires
        client.resumed(
            before,
            now,
            Exchange::Flying { identity, template },
            Event::Answered { verdict: Verdict::Fine },
            after,
            next,
            action,
        ),
    ensures
        after.until == before.until,
        after.active == before.active,
        next is Over,
        action is Deliver,
{
}

/// A response that used the last of the quota is returned, whether or not the request could be sent
/// again. The reset of its identity is as far away as the server says, else as the cooldown, and all
/// others are as they were.
pub proof fn law_depleted_identity_gets_its_reset<S, D>(
    client: &Client<S, D>,
    before: RotationState,
    now: nat,
    identity: usize,
    template: Option<Request>,
    retry_after: Option<Duration>,
    wait: Duration,
    after: RotationState,
    next: Exchange,
    action: Action,
)
    requires
        identity < before.until.len(),
        wait == match retry_after {
            Some(said) => said,
            None => client.cooldown_set(),
        },
        now + duration_nanos(wait) <= u128::MAX,
        client.resumed(
            before,
            now,
            Exchange::Flying { identity, template },
            Event::Answered { verdict: Verdict::Depleted { retry_after } },
            after,
            next,
            action,
        ),
    ensures
        after.until.len() == before.until.len(),
        after.until[identity as int] matches Some(reset) && reset == now + duration_nanos(wait),
        forall|j: int|
            0 <= j < before.until.len() && j != identity ==> #[trigger] after.until[j]
                == before.until[j],
        after.active == if identity + 1 < before.until.len() {
            identity + 1
        } else {
            0
        },
        next is Over,
        action is Deliver,
{
    crate::rotation::law_only_one_reset_changes(
        before,
        identity as int,
        (now + duration_nanos(wait)) as u128,
    );
}

/// The rejection of a request that cannot be sent again is returned. The reset of its identity is as
/// far away as the server says, else as the cooldown, and all others are as they were.
pub proof fn law_rejected_stream_sets_the_reset<S, D>(
    client: &Client<S, D>,
    before: RotationState,
    now: nat,
    identity: usize,
    retry_after: Option<Duration>,
    wait: Duration,
    after: RotationState,
    next: Exchange,
    action: Action,
)
    requires
        identity < before.until.len(),
        wait == match retry_after {
            Some(said) => said,
            None => client.cooldown_set(),
        },
        now + duration_nanos(wait) <= u128::MAX,
        client.resumed(
            before,
            now,
            Exchange::Flying { identity, template: None },
            Event::Answered { verdict: Verdict::Exhausted { retry_after } },
            after,
            next,
            action,
        ),
    ensures
        after.until.len() == before.until.len(),
        after.until[identity as int] matches Some(reset) && reset == now + duration_nanos(wait),
        forall|j: int|
            0 <= j < before.until.len() && j != identity ==> #[trigger] after.until[j]
                == before.until[j],
        after.active == if identity + 1 < before.until.len() {
            identity + 1
        } else {
            0
        },
        next is Over,
        action is Deliver,
{
    crate::rotation::law_only_one_reset_changes(
        before,
        identity as int,
        (now + duration_nanos(wait)) as u128,
    );
}

/// A rejected identity is out of rotation for as long as the server says, else for the cooldown, and
/// not a nanosecond longer or shorter; the request goes out again under the first identity after it
/// that is ready. If there is none, the client sleeps exactly until the soonest reset or tells the
/// time to it, as the policy says. With a wait of no time at all the rejected identity comes last.
pub proof fn law_rejected_identity_is_out_until_its_reset<S, D>(
    client: &Client<S, D>,
    before: RotationState,
    now: nat,
    identity: usize,
    template: Request,
    retry_after: Option<Duration>,
    wait: Duration,
    after: RotationState,
    next: Exchange,
    action: Action,
)
    requires
        0 <= before.active < before.until.len(),
        identity < before.until.len(),
        request_replayable(template),
        wait == match retry_after {
            Some(said) => said,
            None => client.cooldown_set(),
        },
        now + duration_nanos(wait) <= u128::MAX,
        client.resumed(
            before,
            now,
            Exchange::Flying { identity, template: Some(template) },
            Event::Answered { verdict: Verdict::Exhausted { retry_after } },
            after,
            next,
            action,
        ),
    ensures
        after.until.len() == before.until.len(),
        duration_nanos(wait) > 0 ==> (action matches Action::Send { identity: chosen, .. } ==> chosen
            != identity),
        !(action matches Action::Send { identity: chosen, .. } && chosen == identity) ==> (
        after.until[identity as int] matches Some(reset) && reset == now + duration_nanos(wait)),
        action is Send <==> duration_nanos(wait) == 0 || exists|j: int|
            0 <= j < before.until.len() && j != identity && !(#[trigger] before.until[j] matches Some(
                reset,
            ) && reset > now),
        action matches Action::Send { identity: chosen, request } ==> {
            &&& chosen < before.until.len()
            &&& chosen != identity ==> !(before.until[chosen as int] matches Some(reset) && reset
                > now)
            &&& chosen != identity ==> forall|j: int|
                0 <= j < before.until.len() && (if identity < chosen {
                    identity < j < chosen
                } else {
                    identity < j || j < chosen
                }) ==> (#[trigger] before.until[j] matches Some(reset) && reset > now)
            &&& chosen == identity ==> forall|j: int|
                0 <= j < before.until.len() && j != identity ==> (
                #[trigger] before.until[j] matches Some(reset) && reset > now)
            &&& after.until[chosen as int] is None
            &&& after.active == chosen
            &&& forall|j: int|
                0 <= j < before.until.len() && j != identity && j != chosen
                    ==> #[trigger] after.until[j] == before.until[j]
            &&& next == (Exchange::Flying { identity: chosen, template: Some(template) })
            &&& header_entries(request_headers(request)) == header_entries(
                request_headers(template),
            )
            &&& request_url(request) == request_url(template)
            &&& request_rest(request) == request_rest(template)
        },
        action !is Send ==> {
            &&& forall|j: int|
                0 <= j < before.until.len() && j != identity ==> #[trigger] after.until[j]
                    == before.until[j]
            &&& after.active == if identity + 1 < before.until.len() {
                identity + 1
            } else {
                0
            }
        },
        action is Refuse ==> next is Over,
        action is Sleep ==> (next matches Exchange::Waiting { next: kept, template: copy } && {
            &&& copy == Some(template)
            &&& header_entries(request_headers(kept)) == header_entries(request_headers(template))
            &&& request_url(kept) == request_url(template)
            &&& request_rest(kept) == request_rest(template)
        }),
        action is Sleep <==> action !is Send && client.policy() is Wait,
        action !is Send && client.policy() is Error ==> (action matches Action::Refuse {
            error: Error::AllExhausted { .. },
        }),
        action matches Action::Sleep { wait: slept } ==> {
            &&& duration_nanos(slept) <= duration_nanos(wait)
            &&& forall|k: int|
                0 <= k < before.until.len() && k != identity ==> (
                #[trigger] before.until[k] matches Some(reset) && now + duration_nanos(slept) <= reset)
            &&& {
                ||| duration_nanos(slept) == duration_nanos(wait)
                ||| duration_nanos(slept) == 18_446_744_073_709_551_615_999_999_999
                ||| exists|k: int|
                    0 <= k < before.until.len() && k != identity && (
                    #[trigger] before.until[k] matches Some(reset) && now + duration_nanos(slept)
                        == reset)
            }
        },
        action matches Action::Refuse { error: Error::AllExhausted { retry_after: told } } ==> {
            &&& duration_nanos(told) <= duration_nanos(wait)
            &&& forall|k: int|
                0 <= k < before.until.len() && k != identity ==> (
                #[trigger] before.until[k] matches Some(reset) && now + duration_nanos(told) <= reset)
            &&& {
                ||| duration_nanos(told) == duration_nanos(wait)
                ||| duration_nanos(told) == 18_446_744_073_709_551_615_999_999_999
                ||| exists|k: int|
                    0 <= k < before.until.len() && k != identity && (
                    #[trigger] before.until[k] matches Some(reset) && now + duration_nanos(told)
                        == reset)
            }
        },
{
    let reset = (now + duration_nanos(wait)) as u128;
    let rested = before.cooled(identity as int, reset);
    crate::rotation::law_only_one_reset_changes(before, identity as int, reset);
    let sent = choose|sent: Request|
        same_request(template, sent) && #[trigger] client.dispatched(
            rested,
            now,
            sent,
            Some(template),
            after,
            next,
            action,
        );
    assert(client.dispatched(rested, now, sent, Some(template), after, next, action));
    law_request_goes_to_the_first_one_ready(
        client,
        rested,
        now,
        sent,
        Some(template),
        after,
        next,
        action,
    );
    assert(rested.until[identity as int] == Some(reset));
    assert forall|j: int| 0 <= j < before.until.len() && j != identity implies rested.until[j]
        == before.until[j] by {}
}

/// With one identity, its rejection is waited out: the client sleeps for exactly as long as the
/// server says, else for the cooldown, or tells that time in an error.
pub proof fn law_only_identity_is_waited_for<S, D>(
    client: &Client<S, D>,
    before: RotationState,
    now: nat,
    template: Request,
    retry_after: Option<Duration>,
    wait: Duration,
    after: RotationState,
    next: Exchange,
    action: Action,
)
    requires
        before.until.len() == 1,
        before.active == 0,
        request_replayable(template),
        wait == match retry_after {
            Some(said) => said,
            None => client.cooldown_set(),
        },
        0 < duration_nanos(wait) <= 18_446_744_073_709_551_615_999_999_999,
        now + duration_nanos(wait) <= u128::MAX,
        client.resumed(
            before,
            now,
            Exchange::Flying { identity: 0, template: Some(template) },
            Event::Answered { verdict: Verdict::Exhausted { retry_after } },
            after,
            next,
            action,
        ),
    ensures
        after.until[0] matches Some(reset) && reset == now + duration_nanos(wait),
        match client.policy() {
            Exhausted::Wait => action matches Action::Sleep { wait: slept } && duration_nanos(slept)
                == duration_nanos(wait),
            Exhausted::Error => action matches Action::Refuse {
                error: Error::AllExhausted { retry_after: told },
            } && duration_nanos(told) == duration_nanos(wait),
        },
{
    law_rejected_identity_is_out_until_its_reset(
        client,
        before,
        now,
        0,
        template,
        retry_after,
        wait,
        after,
        next,
        action,
    );
    let reset = (now + duration_nanos(wait)) as u128;
    let rested = before.cooled(0, reset);
    crate::rotation::law_only_one_reset_changes(before, 0, reset);
    let sent = choose|sent: Request|
        same_request(template, sent) && #[trigger] client.dispatched(
            rested,
            now,
            sent,
            Some(template),
            after,
            next,
            action,
        );
    assert(client.dispatched(rested, now, sent, Some(template), after, next, action));
    law_request_goes_to_the_first_one_ready(
        client,
        rested,
        now,
        sent,
        Some(template),
        after,
        next,
        action,
    );
}

/// A request that woke up is sent, or goes on waiting, as the one that it is: nothing of it is lost
/// while it waits.
pub proof fn law_woken_request_is_dispatched<S, D>(
    client: &Client<S, D>,
    before: RotationState,
    now: nat,
    next: Request,
    template: Option<Request>,
    after: RotationState,
    exchange: Exchange,
    action: Action,
)
    requires
        client.resumed(
            before,
            now,
            Exchange::Waiting { next, template },
            Event::Woke,
            after,
            exchange,
            action,
        ),
    ensures
        client.dispatched(before, now, next, template, after, exchange, action),
{
}

/// An error ends the request at once: it is returned as it is, and no reset changes.
pub proof fn law_error_ends_the_request<S, D>(
    client: &Client<S, D>,
    before: RotationState,
    now: nat,
    identity: usize,
    template: Option<Request>,
    error: reqwest::Error,
    after: RotationState,
    next: Exchange,
    action: Action,
)
    requires
        client.resumed(
            before,
            now,
            Exchange::Flying { identity, template },
            Event::Failed { error },
            after,
            next,
            action,
        ),
    ensures
        after.until == before.until,
        after.active == before.active,
        next is Over,
        action == (Action::Refuse { error: Error::Reqwest(error) }),
{
}

/// Requests that are the same have the same headers, the same URL, and the same method, body,
/// timeout and version.
pub proof fn law_same_request_is_the_same_everywhere(a: Request, b: Request)
    requires
        same_request(a, b),
    ensures
        header_entries(request_headers(a)) == header_entries(request_headers(b)),
        request_url(a) == request_url(b),
        request_rest(a) == request_rest(b),
        request_replayable(a) == request_replayable(b),
{
}

/// A rotation that a client works on has a reset or none for each of its identities, and starts from
/// one of them.
pub proof fn law_rotation_is_that_of_the_client<S, D>(client: &Client<S, D>, state: RotationState)
    ensures
        client.governs(state) <==> state.until.len() == client.count() && (client.count() > 0 ==> 0
            <= state.active < state.until.len()),
{
}

} // verus!
