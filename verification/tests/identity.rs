use http::header::{HeaderMap, HeaderName, HeaderValue};
use reqwest::{Method, Proxy, Request, Url};
use reqwest_rotate::{ApplyError, Identity, IdentityBuilder, IdentityError, IdentitySummary};

type Hook = fn(&mut Request);

fn builder() -> IdentityBuilder<Hook> {
    Identity::builder()
}

fn request(url: &str) -> Request {
    Request::new(Method::GET, Url::parse(url).unwrap())
}

fn values<'a>(request: &'a Request, name: &str) -> Vec<&'a str> {
    let all = request.headers().get_all(name);
    all.iter().map(|value| value.to_str().unwrap()).collect()
}

#[test]
fn empty_identity_is_rejected() {
    assert!(matches!(builder().build(), Err(IdentityError::Empty)));
}

#[test]
fn invalid_header_is_reported_at_build() {
    let result = builder().header("bad header", "v").build();
    assert!(matches!(result, Err(IdentityError::Header(_))));
}

#[test]
fn header_replaces_callers_value() {
    let id = builder().header("x-api-key", "mine").build().unwrap();
    let mut req = request("http://h/p");
    req.headers_mut().insert("x-api-key", "theirs".parse().unwrap());
    id.apply(&mut req).unwrap();
    let values: Vec<_> = req.headers().get_all("x-api-key").iter().collect();
    assert_eq!(values, ["mine"]);
}

#[test]
fn query_keeps_callers_params_and_overrides_same_name() {
    let id = builder().query("api_key", "mine").build().unwrap();
    let mut req = request("http://h/p?limit=5&api_key=theirs&page=2");
    id.apply(&mut req).unwrap();
    assert_eq!(req.url().query(), Some("limit=5&page=2&api_key=mine"));
}

#[test]
fn query_on_bare_url_adds_it() {
    let id = builder().query("api_key", "k").build().unwrap();
    let mut req = request("http://h/p");
    id.apply(&mut req).unwrap();
    assert_eq!(req.url().as_str(), "http://h/p?api_key=k");
}

#[test]
fn stamp_runs_last() {
    let id = builder()
        .query("a", "1")
        .stamp(|req| {
            let path = format!("{}/stamped", req.url().path());
            req.url_mut().set_path(&path);
        })
        .build()
        .unwrap();
    let mut req = request("http://h/p");
    id.apply(&mut req).unwrap();
    assert_eq!(req.url().as_str(), "http://h/p/stamped?a=1");
}

#[test]
fn debug_hides_values() {
    let id = builder()
        .header("x-api-key", "secret")
        .query("token", "secret")
        .build()
        .unwrap();
    let text = format!("{:?}", id.summary());
    assert!(text.contains("x-api-key"));
    assert!(text.contains("token"));
    assert!(!text.contains("secret"));
}

#[test]
fn summary_shows_names_in_order() {
    let builder = builder()
        .header("X-Api-Key", "a")
        .header("x-api-key", "b")
        .query("t", "1")
        .query("s", "2")
        .query("t", "3")
        .stamp(|_| {});
    let expected = IdentitySummary {
        headers: vec!["x-api-key".to_string()],
        query: vec!["t".to_string(), "s".to_string(), "t".to_string()],
        proxy: false,
        stamp: true,
    };
    assert_eq!(builder.summary(), expected);
    assert!(builder.error().is_none());
    assert_eq!(builder.build().unwrap().summary(), expected);
}

#[test]
fn summary_is_the_same_whatever_the_values_are() {
    let a = builder().header("x-key", "a").query("q", "a").build().unwrap();
    let b = builder().header("x-key", "b").query("q", "b").build().unwrap();
    assert_eq!(a.summary(), b.summary());
}

#[test]
fn header_values_are_sensitive() {
    let id = builder().header("x-api-key", "secret").build().unwrap();
    let mut req = request("http://h/p");
    id.apply(&mut req).unwrap();
    assert!(req.headers()["x-api-key"].is_sensitive());
    assert!(!format!("{req:?}").contains("secret"));
}

#[test]
fn invalid_headers_are_errors() {
    for (name, value) in [
        ("", "v"),
        ("a b", "v"),
        ("a:b", "v"),
        ("a(b", "v"),
        ("a\"b", "v"),
        ("\u{e9}", "v"),
        ("ok", "a\nb"),
        ("ok", "\u{0}"),
        ("ok", "\u{7f}"),
    ] {
        let builder = builder().header(name, value).query("q", "1");
        assert!(builder.error().is_some(), "{name:?} {value:?}");
        assert!(matches!(builder.build(), Err(IdentityError::Header(_))));
    }
}

#[test]
fn valid_headers_are_kept_in_lower_case() {
    for (name, value) in [
        ("X-Api-KEY", "k"),
        ("!#$%&'*+-.^_`|~09azAZ", "k"),
        ("ok", ""),
        ("ok", "a\tb c"),
        ("ok", "gr\u{fc}n"),
    ] {
        let id = builder().header(name, value).build().unwrap();
        let mut req = request("http://h/p");
        id.apply(&mut req).unwrap();
        let (sent, content) = req.headers().iter().next().unwrap();
        assert_eq!(sent.as_str(), name.to_ascii_lowercase());
        assert_eq!(content.as_bytes(), value.as_bytes());
    }
}

#[test]
fn longest_header_name_is_accepted() {
    let longest = "a".repeat(65535);
    assert!(builder().header(&longest, "v").build().is_ok());
    let longer = "a".repeat(65536);
    let result = builder().header(&longer, "v").build();
    assert!(matches!(result, Err(IdentityError::Header(_))));
}

#[test]
fn first_error_is_reported_and_nothing_is_added_after_it() {
    let bad = builder().header("bad name", "v");
    let first = bad.error().unwrap().to_string();
    let more = bad.header("good", "v").header("ok", "bad\nvalue");
    assert_eq!(more.error().unwrap().to_string(), first);
    assert!(more.summary().headers.is_empty());
}

#[test]
fn error_of_the_name_comes_before_that_of_the_value() {
    let both = builder().header("bad name", "bad\nvalue").header("ok", "bad\nvalue");
    let name = builder().header("bad name", "v");
    let value = builder().header("ok", "bad\nvalue");
    assert_eq!(both.error().unwrap().to_string(), name.error().unwrap().to_string());
    assert_ne!(both.error().unwrap().to_string(), value.error().unwrap().to_string());
    assert!(both.error().unwrap().is::<http::header::InvalidHeaderName>());
    assert!(value.error().unwrap().is::<http::header::InvalidHeaderValue>());
}

#[test]
fn parsed_headers_are_added_as_they_are() {
    let name = HeaderName::from_static("x-api-key");
    let id = builder()
        .parsed_header(Ok(name), Ok(HeaderValue::from_bytes(&[200, 201]).unwrap()))
        .build()
        .unwrap();
    let mut req = request("http://h/p");
    id.apply(&mut req).unwrap();
    assert_eq!(req.headers()["x-api-key"].as_bytes(), [200, 201]);
    assert!(req.headers()["x-api-key"].is_sensitive());

    let error = HeaderName::from_bytes(b"bad name").unwrap_err();
    let builder = builder().parsed_header(Err(error.into()), Ok(HeaderValue::from_static("v")));
    assert!(matches!(builder.build(), Err(IdentityError::Header(_))));
}

#[test]
fn repeated_headers_are_all_sent() {
    let id = builder()
        .header("x-key", "one")
        .header("x-other", "other")
        .header("X-Key", "two")
        .build()
        .unwrap();
    let mut req = request("http://h/p");
    req.headers_mut().append("x-key", "a".parse().unwrap());
    req.headers_mut().append("x-key", "b".parse().unwrap());
    req.headers_mut().append("accept", "c".parse().unwrap());
    req.headers_mut().append("accept", "d".parse().unwrap());
    id.apply(&mut req).unwrap();
    assert_eq!(values(&req, "x-key"), ["one", "two"]);
    assert_eq!(values(&req, "x-other"), ["other"]);
    assert_eq!(values(&req, "accept"), ["c", "d"]);
}

#[test]
fn repeated_query_parameters_are_all_sent() {
    let id = builder().query("a", "1").query("b", "2").query("a", "3").build().unwrap();
    let mut req = request("http://h/p?c=0&a=x&b=y&c=9&a=z");
    id.apply(&mut req).unwrap();
    assert_eq!(req.url().query(), Some("c=0&c=9&a=1&b=2&a=3"));
}

#[test]
fn query_is_encoded_and_the_fragment_stays() {
    let id = builder().query("a b", "\u{fc}&=").build().unwrap();
    let mut req = request("http://u:p@h:81/p/q?x=%20y#frag");
    id.apply(&mut req).unwrap();
    assert_eq!(req.url().as_str(), "http://u:p@h:81/p/q?x=+y&a+b=%C3%BC%26%3D#frag");
    let pairs: Vec<(String, String)> = req.url().query_pairs().into_owned().collect();
    assert_eq!(pairs[1], ("a b".to_string(), "\u{fc}&=".to_string()));
}

#[test]
fn query_is_left_alone_without_parameters() {
    let id = builder().header("x-key", "k").build().unwrap();
    let mut req = request("http://h/p?a=%7e&&b");
    id.apply(&mut req).unwrap();
    assert_eq!(req.url().as_str(), "http://h/p?a=%7e&&b");
}

#[test]
fn applying_twice_is_applying_once() {
    let id = builder()
        .header("x-key", "one")
        .header("x-key", "two")
        .query("a", "1")
        .query("a", "2")
        .build()
        .unwrap();
    let mut once = request("http://h/p?a=0&b=5#f");
    id.apply(&mut once).unwrap();
    let mut twice = once.try_clone().unwrap();
    id.apply(&mut twice).unwrap();
    assert_eq!(twice.url(), once.url());
    assert_eq!(twice.headers(), once.headers());
}

#[test]
fn method_body_and_the_rest_are_not_touched() {
    let id = builder().header("x-key", "k").query("a", "1").build().unwrap();
    let mut req = Request::new(Method::PUT, Url::parse("http://h/p").unwrap());
    *req.body_mut() = Some("payload".into());
    *req.timeout_mut() = Some(std::time::Duration::from_secs(3));
    *req.version_mut() = http::Version::HTTP_2;
    id.apply(&mut req).unwrap();
    assert_eq!(req.method(), Method::PUT);
    assert_eq!(req.body().unwrap().as_bytes().unwrap(), b"payload");
    assert_eq!(req.timeout(), Some(&std::time::Duration::from_secs(3)));
    assert_eq!(req.version(), http::Version::HTTP_2);
}

#[test]
fn proxy_alone_makes_an_identity() {
    let id = builder().proxy(Proxy::all("http://1.2.3.4:8080").unwrap()).build().unwrap();
    assert!(format!("{:?}", id.proxy().unwrap()).contains("1.2.3.4"));
    assert!(id.summary().proxy);
    let other = builder().stamp(|_| {}).build().unwrap();
    assert!(other.proxy().is_none());
}

#[test]
fn headers_that_do_not_fit_are_reported() {
    let mut id = builder();
    for i in 0..6000 {
        id = id.header(&format!("id-{i}"), "v");
    }
    let id = id.build().unwrap();
    let mut req = request("http://h/p");
    id.apply(&mut req).unwrap();
    assert_eq!(req.headers().len(), 6000);

    let mut full = HeaderMap::new();
    let mut i: usize = 0;
    loop {
        let name = HeaderName::from_bytes(format!("caller-{i}").as_bytes()).unwrap();
        if full.try_append(name, HeaderValue::from_static("v")).is_err() {
            break;
        }
        i += 1;
    }
    let mut req = request("http://h/p");
    *req.headers_mut() = full;
    assert_eq!(id.apply(&mut req), Err(ApplyError::HeadersFull));
}

#[test]
fn builder_that_cannot_grow_reports_an_error() {
    let mut id = builder();
    let mut i: usize = 0;
    while id.error().is_none() {
        id = id.header(&format!("name-{i}"), "v");
        i += 1;
    }
    assert!(i > 6553);
    assert!(matches!(id.build(), Err(IdentityError::Header(_))));
}

#[test]
fn query_that_does_not_fit_is_reported() {
    let value = "&".repeat(1_431_655_800);
    let id = builder().query("k", &value).build().unwrap();
    drop(value);
    let mut req = request("http://h/p?a=1#f");
    assert_eq!(id.apply(&mut req), Err(ApplyError::UrlTooLong));
    assert_eq!(req.url().as_str(), "http://h/p?a=1#f");
}

#[test]
fn every_byte_is_written_as_in_a_form() {
    let id = builder().query("*-._09AZaz", " ~/+\u{e9}\n").query("", "").build().unwrap();
    for (before, after) in [
        ("http://h/p", "http://h/p?*-._09AZaz=+%7E%2F%2B%C3%A9%0A&="),
        ("http://h/p?", "http://h/p?*-._09AZaz=+%7E%2F%2B%C3%A9%0A&="),
        ("http://h/?x#f", "http://h/?x=&*-._09AZaz=+%7E%2F%2B%C3%A9%0A&=#f"),
    ] {
        let mut req = request(before);
        id.apply(&mut req).unwrap();
        assert_eq!(req.url().as_str(), after);
    }
}

#[test]
fn later_identity_overrides_an_earlier_one() {
    let first = builder().header("x-key", "1").query("a", "1").query("a", "2").build().unwrap();
    let second = builder()
        .header("x-other", "o")
        .header("x-key", "2")
        .query("b", "3")
        .query("a", "4")
        .build()
        .unwrap();
    let mut both = request("http://h/p?c=0&a=9#f");
    both.headers_mut().insert("x-key", "caller".parse().unwrap());
    let mut alone = both.try_clone().unwrap();
    first.apply(&mut both).unwrap();
    second.apply(&mut both).unwrap();
    second.apply(&mut alone).unwrap();
    assert_eq!(both.url(), alone.url());
    assert_eq!(both.url().as_str(), "http://h/p?c=0&b=3&a=4#f");
    assert_eq!(both.headers(), alone.headers());
    assert_eq!(values(&both, "x-key"), ["2"]);
}

#[test]
fn calls_build_the_identity_in_any_order() {
    let id = builder()
        .query("q", "1")
        .proxy(Proxy::all("http://1.1.1.1:1").unwrap())
        .header("x-b", "1")
        .stamp(|req| req.url_mut().set_path("/first"))
        .header("x-a", "2")
        .query("q", "2")
        .proxy(Proxy::all("http://2.2.2.2:2").unwrap())
        .header("X-B", "3")
        .stamp(|req| req.url_mut().set_path("/last"))
        .build()
        .unwrap();
    assert_eq!(id.summary().headers, ["x-b", "x-a"]);
    assert!(format!("{:?}", id.proxy().unwrap()).contains("2.2.2.2"));
    let mut req = request("http://h/p");
    id.apply(&mut req).unwrap();
    assert_eq!(req.url().as_str(), "http://h/last?q=1&q=2");
    assert_eq!(values(&req, "x-b"), ["1", "3"]);
    assert_eq!(values(&req, "x-a"), ["2"]);
}

#[test]
fn clone_is_the_same_identity() {
    let id = builder()
        .header("x-key", "one")
        .header("x-key", "two")
        .query("a", "1")
        .query("b", "2")
        .proxy(Proxy::all("http://1.2.3.4:8080").unwrap())
        .stamp(|req| req.url_mut().set_path("/stamped"))
        .build()
        .unwrap();
    let copy = id.clone();
    assert_eq!(copy.summary(), id.summary());
    assert!(format!("{:?}", copy.proxy().unwrap()).contains("1.2.3.4"));
    let mut a = request("http://h/p");
    let mut b = request("http://h/p");
    id.apply(&mut a).unwrap();
    copy.apply(&mut b).unwrap();
    assert_eq!(b.url().as_str(), "http://h/stamped?a=1&b=2");
    assert_eq!(a.url(), b.url());
    assert_eq!(values(&b, "x-key"), ["one", "two"]);
}
