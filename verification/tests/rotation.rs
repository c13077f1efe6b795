use std::cell::Cell;
use std::future::Future;
use std::sync::Arc;
use std::task::{Context, Poll, Wake, Waker};
use std::time::Duration;

use http::header::{HeaderMap, HeaderName};
use http::{Extensions, StatusCode, Version};
use reqwest::{Body, Method, Proxy, Request, Url};
use reqwest_rotate::{
    Action, Buffered, Client, ClientBuilder, DefaultDetector, Detector, Error, Event, Exchange,
    Exhausted, HeaderDetector, Identity, Rotation, Verdict, DEFAULT_COOLDOWN_SECS,
};

type Hook = fn(&mut Request);
type Configure = fn(reqwest::ClientBuilder) -> reqwest::ClientBuilder;
type Pool = ClientBuilder<Hook, DefaultDetector, Configure>;

struct Idle;

impl Wake for Idle {
    fn wake(self: Arc<Self>) {}
}

/// The result of a future that does not wait for anything.
fn ready<F: Future>(future: F) -> F::Output {
    let waker = Waker::from(Arc::new(Idle));
    let mut future = Box::pin(future);
    match future.as_mut().poll(&mut Context::from_waker(&waker)) {
        Poll::Ready(output) => output,
        Poll::Pending => panic!("the future is not ready"),
    }
}

fn pool() -> Pool {
    ClientBuilder::new()
}

fn key(k: &str) -> Identity<Hook> {
    Identity::builder().header("x-api-key", k).build().unwrap()
}

fn request(url: &str) -> Request {
    Request::new(Method::GET, Url::parse(url).unwrap())
}

fn data() -> Request {
    request("http://upstream/data")
}

/// The key that a request is sent under.
fn key_of(request: &Request) -> &str {
    match request.headers().get("x-api-key") {
        Some(key) => key.to_str().unwrap(),
        None => "",
    }
}

struct Answer {
    status: u16,
    headers: Vec<(&'static str, String)>,
    body: String,
}

fn ok(body: &str) -> Answer {
    Answer { status: 200, headers: Vec::new(), body: body.to_string() }
}

fn too_many(retry_after_secs: Option<u64>) -> Answer {
    let headers = match retry_after_secs {
        Some(secs) => vec![("retry-after", secs.to_string())],
        None => Vec::new(),
    };
    Answer { status: 429, headers, body: String::new() }
}

/// A client, its rotation and its clock, and what happened so far.
struct World<D> {
    client: Client<Hook, D>,
    rotation: Rotation,
    now: Duration,
    sent: Vec<String>,
    slept: Vec<Duration>,
}

impl<D: Detector> World<D> {
    fn new(client: Client<Hook, D>) -> Self {
        let rotation = client.rotation();
        World { client, rotation, now: Duration::from_secs(5), sent: Vec::new(), slept: Vec::new() }
    }

    /// Run a request to its end against an upstream.
    fn send(
        &mut self,
        request: Request,
        upstream: impl Fn(&Request) -> Answer,
    ) -> Result<reqwest::Response, Error> {
        let (mut exchange, mut action) = self.client.execute(&mut self.rotation, request, self.now);
        let mut last = None;
        loop {
            let event = match action {
                Action::SendDirect { request } => {
                    self.sent.push(request.url().to_string());
                    return Ok(reqwest::Response::from(
                        http::Response::builder()
                            .status(upstream(&request).status)
                            .body(upstream(&request).body)
                            .unwrap(),
                    ));
                }
                Action::Send { identity, mut request } => {
                    self.client.prepare(identity, &mut request).unwrap();
                    self.sent.push(key_of(&request).to_string());
                    let answer = upstream(&request);
                    let mut headers = HeaderMap::new();
                    for (name, value) in answer.headers {
                        headers.append(HeaderName::from_static(name), value.parse().unwrap());
                    }
                    let (response, verdict) = self.client.conclude(Buffered {
                        status: StatusCode::from_u16(answer.status).unwrap(),
                        version: Version::HTTP_11,
                        url: request.url().clone(),
                        headers,
                        extensions: Extensions::new(),
                        body: answer.body.into_bytes(),
                    });
                    last = Some(response);
                    Event::Answered { verdict }
                }
                Action::Sleep { wait } => {
                    self.slept.push(wait);
                    self.now += wait;
                    Event::Woke
                }
                Action::Deliver => return Ok(last.unwrap()),
                Action::Refuse { error } => return Err(error),
            };
            (exchange, action) =
                self.client.resume(&mut self.rotation, exchange, event, self.now);
        }
    }

    fn fetch(&mut self, upstream: impl Fn(&Request) -> Answer) -> Result<String, Error> {
        let response = self.send(data(), upstream)?;
        Ok(ready(response.text()).unwrap())
    }
}

#[test]
fn without_identities_behaves_like_reqwest() {
    let mut world = World::new(pool().build().unwrap());
    let response = world.send(data(), |_| ok("hi")).unwrap();
    assert_eq!(response.status(), StatusCode::OK);
    assert_eq!(world.sent, ["http://upstream/data"]);
    assert_eq!(ready(response.text()).unwrap(), "hi");
    let limited = world.send(data(), |_| too_many(Some(30))).unwrap();
    assert_eq!(limited.status(), StatusCode::TOO_MANY_REQUESTS);
}

#[test]
fn identity_headers_and_configure_are_applied() {
    let client = pool()
        .identity(key("k1"))
        .configure(|b| b.user_agent("rotate-test"))
        .build()
        .unwrap();
    assert!(format!("{:?}", client.direct()).contains("rotate-test"));
    assert!(format!("{:?}", client.client(0)).contains("rotate-test"));
    let mut world = World::new(client);
    assert_eq!(world.fetch(|req| ok(key_of(req))).unwrap(), "k1");
}

#[test]
fn identity_query_appends_and_overrides() {
    let identity = Identity::builder().query("api_key", "k1").build().unwrap();
    let mut world = World::new(pool().identity(identity).build().unwrap());
    let response = world
        .send(request("http://upstream/data?limit=5&api_key=stale"), |req| {
            let pairs: Vec<_> = req.url().query_pairs().into_owned().collect();
            assert!(pairs.contains(&("limit".to_string(), "5".to_string())));
            assert!(pairs.contains(&("api_key".to_string(), "k1".to_string())));
            assert_eq!(pairs.iter().filter(|(k, _)| k == "api_key").count(), 1);
            ok("k1")
        })
        .unwrap();
    assert_eq!(ready(response.text()).unwrap(), "k1");
}

#[test]
fn stamp_can_put_the_key_in_the_path() {
    let hook: Hook = |req| {
        let path = req.url().path().replace("KEY", "k1");
        req.url_mut().set_path(&path);
    };
    let identity = Identity::builder().stamp(hook).build().unwrap();
    let mut world = World::new(pool().identity(identity).build().unwrap());
    let response = world
        .send(request("http://upstream/v3/KEY/data"), |req| {
            assert_eq!(req.url().path(), "/v3/k1/data");
            ok("k1")
        })
        .unwrap();
    assert_eq!(ready(response.text()).unwrap(), "k1");
}

#[test]
fn rotates_on_429_and_stays_rotated() {
    let client = pool().identity(key("k1")).identity(key("k2")).build().unwrap();
    let mut world = World::new(client);
    let upstream = |req: &Request| match key_of(req) {
        "k1" => too_many(Some(30)),
        k => ok(k),
    };
    assert_eq!(world.fetch(upstream).unwrap(), "k2");
    assert_eq!(world.fetch(upstream).unwrap(), "k2");
    assert_eq!(world.sent, ["k1", "k2", "k2"]);
    assert!(world.slept.is_empty());
}

#[test]
fn all_exhausted_error_policy_returns_at_once() {
    let client = pool()
        .identity(key("k1"))
        .identity(key("k2"))
        .exhausted(Exhausted::Error)
        .build()
        .unwrap();
    let mut world = World::new(client);
    let result = world.fetch(|req| match key_of(req) {
        "k1" => too_many(Some(30)),
        _ => too_many(Some(10)),
    });
    match result {
        Err(Error::AllExhausted { retry_after }) => {
            assert!(retry_after <= Duration::from_secs(10), "{retry_after:?}");
            assert!(retry_after > Duration::from_secs(8), "{retry_after:?}");
        }
        other => panic!("unexpected: {other:?}"),
    }
    assert_eq!(world.sent, ["k1", "k2"]);
    assert!(world.slept.is_empty());
}

#[test]
fn all_exhausted_wait_policy_sleeps_until_reset() {
    let client = pool()
        .identity(key("k1"))
        .identity(key("k2"))
        .exhausted(Exhausted::Wait)
        .build()
        .unwrap();
    let mut world = World::new(client);
    let calls = Cell::new(0);
    let started = world.now;
    let body = world
        .fetch(|req| {
            calls.set(calls.get() + 1);
            if calls.get() <= 2 { too_many(Some(1)) } else { ok(key_of(req)) }
        })
        .unwrap();
    assert!(body == "k1" || body == "k2", "{body}");
    assert!(world.now - started >= Duration::from_millis(900));
    assert_eq!(world.slept, [Duration::from_secs(1)]);
}

#[test]
fn body_detector_rotates_and_preserves_the_response() {
    let detector = |status: StatusCode, _: &HeaderMap, body: &[u8]| {
        if status == StatusCode::INTERNAL_SERVER_ERROR && body.windows(5).any(|w| w == b"quota") {
            Verdict::Exhausted { retry_after: None }
        } else {
            Verdict::Fine
        }
    };
    let client = pool()
        .identity(key("k1"))
        .identity(key("k2"))
        .detector(detector)
        .build()
        .unwrap();
    assert!(client.needs_body());
    let mut world = World::new(client);
    let response = world
        .send(data(), |req| match key_of(req) {
            "k1" => Answer { status: 500, headers: Vec::new(), body: "quota exhausted".to_string() },
            _ => Answer {
                status: 200,
                headers: vec![("x-custom", "yes".to_string())],
                body: "fine".to_string(),
            },
        })
        .unwrap();
    assert_eq!(response.status(), StatusCode::OK);
    assert_eq!(response.url().as_str(), "http://upstream/data");
    assert_eq!(response.headers()["x-custom"], "yes");
    assert_eq!(ready(response.text()).unwrap(), "fine");
    assert_eq!(world.sent, ["k1", "k2"]);
}

#[test]
fn depleted_returns_the_response_then_rotates() {
    let client = pool().identity(key("k1")).identity(key("k2")).build().unwrap();
    let mut world = World::new(client);
    let upstream = |req: &Request| match key_of(req) {
        "k1" => Answer {
            status: 200,
            headers: vec![
                ("x-ratelimit-remaining", "0".to_string()),
                ("x-ratelimit-reset", "60".to_string()),
            ],
            body: "k1".to_string(),
        },
        k => ok(k),
    };
    assert_eq!(world.fetch(upstream).unwrap(), "k1");
    assert_eq!(world.fetch(upstream).unwrap(), "k2");
    assert_eq!(world.sent, ["k1", "k2"]);
}

#[test]
fn cooldown_readmits_an_identity_without_retry_after() {
    let client = pool()
        .identity(key("k1"))
        .cooldown(Duration::from_secs(1))
        .exhausted(Exhausted::Error)
        .build()
        .unwrap();
    let mut world = World::new(client);
    let result = world.fetch(|_| too_many(None));
    assert!(
        matches!(result, Err(Error::AllExhausted { retry_after }) if retry_after <= Duration::from_secs(1))
    );
    world.now += Duration::from_millis(1100);
    assert_eq!(world.fetch(|req| ok(key_of(req))).unwrap(), "k1");
}

#[test]
fn proxy_identity_routes_through_the_proxy() {
    let proxied = Identity::builder()
        .proxy(Proxy::all("http://1.2.3.4:8080").unwrap())
        .build()
        .unwrap();
    let other = Identity::builder()
        .proxy(Proxy::all("http://5.6.7.8:8080").unwrap())
        .build()
        .unwrap();
    let client = pool()
        .identities(vec![proxied, key("k1"), other])
        .configure(|b| b.user_agent("rotate-test"))
        .build()
        .unwrap();
    let shown = |i: usize| format!("{:?}", client.client(i));
    assert!(shown(0).contains("1.2.3.4") && !shown(0).contains("5.6.7.8"));
    assert!(shown(2).contains("5.6.7.8") && !shown(2).contains("1.2.3.4"));
    assert_eq!(shown(1), format!("{:?}", client.direct()));
    assert!(!shown(1).contains("1.2.3.4") && !shown(1).contains("5.6.7.8"));
    for i in 0..3 {
        assert!(shown(i).contains("rotate-test"));
    }
}

#[test]
fn from_reqwest_client_passes_through() {
    let inner = reqwest::Client::builder().user_agent("wrapped").build().unwrap();
    let client: Client<Hook, DefaultDetector> = Client::from(inner);
    assert!(format!("{:?}", client.direct()).contains("wrapped"));
    assert_eq!(client.len(), 0);
    let mut world = World::new(client);
    assert_eq!(world.fetch(|_| ok("hi")).unwrap(), "hi");
}

#[test]
fn settings_start_with_the_defaults() {
    let client = pool().build().unwrap();
    assert_eq!(client.cooldown(), Duration::from_secs(DEFAULT_COOLDOWN_SECS));
    assert_eq!(client.cooldown(), Duration::from_secs(60));
    assert_eq!(client.exhausted(), Exhausted::Wait);
    assert_eq!(Exhausted::default(), Exhausted::Wait);
    assert!(!client.needs_body());
    let other: Pool = Client::builder();
    assert_eq!(other.build().unwrap().cooldown(), Duration::from_secs(60));
    let other = Pool::default().exhausted(Exhausted::Error).cooldown(Duration::from_secs(9));
    let other = other.build().unwrap();
    assert_eq!(other.exhausted(), Exhausted::Error);
    assert_eq!(other.cooldown(), Duration::from_secs(9));
}

#[test]
fn build_fails_when_a_client_cannot_be_built() {
    assert!(pool().configure(|b| b.user_agent("bad\nagent")).build().is_err());
    assert!(pool().identity(key("k1")).configure(|b| b.user_agent("bad\nagent")).build().is_err());
}

#[test]
fn identities_rotate_in_order_and_come_round() {
    let keys = vec![key("a"), key("b"), key("c")];
    let mut world = World::new(pool().identities(keys).build().unwrap());
    let upstream = |req: &Request| Answer {
        status: 200,
        headers: vec![("ratelimit-remaining", "0".to_string()), ("retry-after", "2".to_string())],
        body: key_of(req).to_string(),
    };
    for expected in ["a", "b", "c"] {
        assert_eq!(world.fetch(upstream).unwrap(), expected);
    }
    assert!(world.slept.is_empty());
    assert_eq!(world.fetch(upstream).unwrap(), "a");
    assert_eq!(world.slept, [Duration::from_secs(2)]);
}

#[test]
fn cooling_identities_are_passed_over() {
    let keys = vec![key("a"), key("b"), key("c")];
    let mut world = World::new(pool().identities(keys).build().unwrap());
    let body = world
        .fetch(|req| match key_of(req) {
            "c" => ok("c"),
            _ => too_many(Some(100)),
        })
        .unwrap();
    assert_eq!(body, "c");
    world.now += Duration::from_secs(50);
    let body = world
        .fetch(|req| match key_of(req) {
            "c" => too_many(Some(100)),
            k => ok(k),
        })
        .unwrap();
    assert_eq!(body, "a");
    assert_eq!(world.sent, ["a", "b", "c", "c", "a"]);
    assert_eq!(world.slept, [Duration::from_secs(50)]);
}

#[test]
fn retry_after_takes_precedence_over_the_cooldown() {
    let client = pool()
        .identity(key("k1"))
        .cooldown(Duration::from_secs(1000))
        .exhausted(Exhausted::Error)
        .build()
        .unwrap();
    let mut world = World::new(client);
    let result = world.fetch(|_| too_many(Some(7)));
    assert!(
        matches!(result, Err(Error::AllExhausted { retry_after }) if retry_after == Duration::from_secs(7))
    );
    world.now += Duration::from_secs(7);
    let result = world.fetch(|_| too_many(None));
    assert!(
        matches!(result, Err(Error::AllExhausted { retry_after }) if retry_after == Duration::from_secs(1000))
    );
}

#[test]
fn identity_is_back_exactly_at_its_reset() {
    let mut rotation = Rotation::new(2);
    let at = Duration::from_secs;
    assert_eq!(rotation.next_ready(at(0)), Ok(0));
    rotation.cool(0, at(10), at(0));
    assert_eq!(rotation.next_ready(at(1)), Ok(1));
    rotation.cool(1, at(5), at(1));
    assert_eq!(rotation.next_ready(at(2)), Err(6_000_000_000));
    assert_eq!(rotation.next_ready(Duration::new(5, 999_999_999)), Err(6_000_000_000));
    assert_eq!(rotation.next_ready(at(6)), Ok(1));
    assert_eq!(rotation.next_ready(at(7)), Ok(1));
    rotation.cool(1, at(100), at(7));
    assert_eq!(rotation.next_ready(at(9)), Err(10_000_000_000));
    assert_eq!(rotation.next_ready(at(10)), Ok(0));
}

#[test]
fn longest_waits_do_not_overflow() {
    let mut rotation = Rotation::new(1);
    rotation.cool(0, Duration::MAX, Duration::MAX);
    let reset = 2 * Duration::MAX.as_nanos();
    assert_eq!(rotation.next_ready(Duration::MAX), Err(reset));

    let client = pool().identity(key("k1")).build().unwrap();
    let mut rotation = client.rotation();
    let (_, action) = client.execute(&mut rotation, data(), Duration::ZERO);
    assert!(matches!(action, Action::Send { identity: 0, .. }));
    rotation.cool(0, Duration::MAX, Duration::from_secs(1));
    let (_, action) = client.execute(&mut rotation, data(), Duration::ZERO);
    assert!(matches!(action, Action::Sleep { wait } if wait == Duration::MAX));
}

#[test]
fn request_sent_again_is_the_same_request() {
    let client = pool().identity(key("k1")).identity(key("k2")).build().unwrap();
    let mut rotation = client.rotation();
    let mut original = Request::new(Method::POST, Url::parse("http://upstream/data?a=1#f").unwrap());
    original.headers_mut().insert("accept", "text/plain".parse().unwrap());
    *original.body_mut() = Some("payload".into());
    *original.timeout_mut() = Some(Duration::from_secs(3));
    *original.version_mut() = Version::HTTP_2;
    let (exchange, action) = client.execute(&mut rotation, original, Duration::ZERO);
    match action {
        Action::Send { identity: 0, mut request } => client.prepare(0, &mut request).unwrap(),
        _ => panic!("not sent"),
    }
    let verdict = Verdict::Exhausted { retry_after: None };
    let event = Event::Answered { verdict };
    let (_, action) = client.resume(&mut rotation, exchange, event, Duration::ZERO);
    match action {
        Action::Send { identity: 1, request } => {
            assert_eq!(request.method(), Method::POST);
            assert_eq!(request.url().as_str(), "http://upstream/data?a=1#f");
            assert_eq!(request.headers().len(), 1);
            assert_eq!(request.headers()["accept"], "text/plain");
            assert_eq!(request.body().unwrap().as_bytes().unwrap(), b"payload");
            assert_eq!(request.timeout(), Some(&Duration::from_secs(3)));
            assert_eq!(request.version(), Version::HTTP_2);
        }
        _ => panic!("not sent again"),
    }
}

#[test]
fn streaming_body_is_sent_once() {
    let client = pool().identity(key("k1")).identity(key("k2")).build().unwrap();
    let mut world = World::new(client);
    let mut stream = data();
    *stream.body_mut() = Some(Body::wrap(Body::from("stream")));
    assert!(stream.try_clone().is_none());
    let response = world.send(stream, |_| too_many(Some(30))).unwrap();
    assert_eq!(response.status(), StatusCode::TOO_MANY_REQUESTS);
    assert_eq!(world.sent, ["k1"]);
    assert_eq!(world.fetch(|req| ok(key_of(req))).unwrap(), "k2");
}

#[test]
fn streaming_body_waits_for_an_identity() {
    let client = pool().identity(key("k1")).build().unwrap();
    let mut world = World::new(client);
    world.rotation.cool(0, Duration::from_secs(3), world.now);
    let mut stream = data();
    *stream.body_mut() = Some(Body::wrap(Body::from("stream")));
    let response = world.send(stream, |_| ok("late")).unwrap();
    assert_eq!(ready(response.text()).unwrap(), "late");
    assert_eq!(world.slept, [Duration::from_secs(3)]);
}

#[test]
fn errors_pass_through_and_cool_nothing() {
    let client = pool().identity(key("k1")).identity(key("k2")).build().unwrap();
    let mut rotation = client.rotation();
    let (exchange, _) = client.execute(&mut rotation, data(), Duration::ZERO);
    assert!(matches!(exchange, Exchange::Flying { identity: 0, .. }));
    let error = client.direct().get("no url").build().unwrap_err();
    let text = error.to_string();
    let event = Event::Failed { error };
    let (exchange, action) = client.resume(&mut rotation, exchange, event, Duration::ZERO);
    assert!(matches!(exchange, Exchange::Over));
    match action {
        Action::Refuse { error: Error::Reqwest(e) } => assert_eq!(e.to_string(), text),
        _ => panic!("not refused"),
    }
    assert_eq!(rotation.next_ready(Duration::ZERO), Ok(0));
}

#[test]
fn server_errors_are_delivered_without_rotating() {
    let client = pool().identity(key("k1")).identity(key("k2")).build().unwrap();
    let mut world = World::new(client);
    let upstream =
        |_: &Request| Answer { status: 503, headers: Vec::new(), body: "down".to_string() };
    assert_eq!(world.fetch(upstream).unwrap(), "down");
    assert_eq!(world.fetch(upstream).unwrap(), "down");
    assert_eq!(world.sent, ["k1", "k1"]);
}

#[test]
fn header_detector_does_not_get_the_body() {
    let detector = HeaderDetector::new(|status: StatusCode, _: &HeaderMap| {
        if status == StatusCode::FORBIDDEN {
            Verdict::Exhausted { retry_after: Some(Duration::from_secs(4)) }
        } else {
            Verdict::Fine
        }
    });
    let client = pool().identity(key("k1")).detector(detector).build().unwrap();
    assert!(!client.needs_body());
    let verdict = client.classify(StatusCode::FORBIDDEN, &HeaderMap::new(), b"whatever");
    assert_eq!(verdict, Verdict::Exhausted { retry_after: Some(Duration::from_secs(4)) });
}

#[test]
fn rebuilt_response_has_every_part() {
    let client = pool().identity(key("k1")).build().unwrap();
    let mut headers = HeaderMap::new();
    headers.append("x-a", "1".parse().unwrap());
    headers.append("x-a", "2".parse().unwrap());
    let mut extensions = Extensions::new();
    extensions.insert(42u32);
    let (response, verdict) = client.conclude(Buffered {
        status: StatusCode::IM_A_TEAPOT,
        version: Version::HTTP_2,
        url: Url::parse("http://upstream/tea?cup=1#hot").unwrap(),
        headers: headers.clone(),
        extensions,
        body: vec![0, 159, 146, 150],
    });
    assert_eq!(verdict, Verdict::Fine);
    assert_eq!(response.status(), StatusCode::IM_A_TEAPOT);
    assert_eq!(response.version(), Version::HTTP_2);
    assert_eq!(response.url().as_str(), "http://upstream/tea?cup=1#hot");
    assert_eq!(response.headers(), &headers);
    assert_eq!(response.extensions().get::<u32>(), Some(&42));
    assert_eq!(ready(response.bytes()).unwrap().to_vec(), vec![0, 159, 146, 150]);
}

#[test]
fn reset_time_in_the_past_rotates_all_the_same() {
    let client = pool().identity(key("k1")).identity(key("k2")).build().unwrap();
    let mut world = World::new(client);
    let body = world
        .fetch(|req| match key_of(req) {
            "k1" => too_many(Some(0)),
            k => ok(k),
        })
        .unwrap();
    assert_eq!(body, "k2");
    assert_eq!(world.sent, ["k1", "k2"]);
    assert!(world.slept.is_empty());
}
