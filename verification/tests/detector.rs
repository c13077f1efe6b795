use std::time::{Duration, SystemTime, UNIX_EPOCH};

use http::header::{HeaderMap, HeaderName, HeaderValue};
use http::StatusCode;
use reqwest_rotate::detector::{epoch_time, retry_after_at};
use reqwest_rotate::{retry_after, DefaultDetector, Detector, HeaderDetector, Verdict};

fn headers(pairs: &[(&str, &str)]) -> HeaderMap {
    let mut map = HeaderMap::new();
    for (k, v) in pairs {
        map.append(HeaderName::from_bytes(k.as_bytes()).unwrap(), v.parse().unwrap());
    }
    map
}

fn wait_for(text: &str) -> Option<u64> {
    retry_after(&headers(&[("retry-after", text)])).map(|wait| {
        assert_eq!(wait.subsec_nanos(), 0);
        wait.as_secs()
    })
}

#[test]
fn too_many_requests_is_exhausted_with_retry_after() {
    let verdict = DefaultDetector.classify(
        StatusCode::TOO_MANY_REQUESTS,
        &headers(&[("retry-after", "30")]),
        &[],
    );
    assert_eq!(
        verdict,
        Verdict::Exhausted {
            retry_after: Some(Duration::from_secs(30))
        }
    );
}

#[test]
fn success_with_zero_remaining_is_depleted() {
    let verdict = DefaultDetector.classify(
        StatusCode::OK,
        &headers(&[("x-ratelimit-remaining", "0"), ("x-ratelimit-reset", "12")]),
        &[],
    );
    assert_eq!(
        verdict,
        Verdict::Depleted {
            retry_after: Some(Duration::from_secs(12))
        }
    );
}

#[test]
fn plain_success_is_ok() {
    let verdict = DefaultDetector.classify(
        StatusCode::OK,
        &headers(&[("x-ratelimit-remaining", "7")]),
        &[],
    );
    assert_eq!(verdict, Verdict::Fine);
}

#[test]
fn server_error_without_signal_is_ok() {
    let verdict = DefaultDetector.classify(StatusCode::INTERNAL_SERVER_ERROR, &headers(&[]), &[]);
    assert_eq!(verdict, Verdict::Fine);
}

#[test]
fn unix_timestamp_reset_becomes_a_delta() {
    let now = SystemTime::now().duration_since(UNIX_EPOCH).unwrap().as_secs();
    let reset = (now + 90).to_string();
    let delta = retry_after(&headers(&[("x-ratelimit-reset", &reset)])).unwrap();
    assert!((89..=91).contains(&delta.as_secs()), "{delta:?}");
}

#[test]
fn fractional_seconds_round_up() {
    let delta = retry_after(&headers(&[("retry-after", "1.2")])).unwrap();
    assert_eq!(delta, Duration::from_secs(2));
}

#[test]
fn http_date_retry_after_is_ignored() {
    let h = headers(&[("retry-after", "Wed, 21 Oct 2026 07:28:00 GMT")]);
    assert_eq!(retry_after(&h), None);
}

#[test]
fn header_detector_skips_body() {
    let detector = HeaderDetector::new(|status, _: &HeaderMap| {
        if status == StatusCode::SERVICE_UNAVAILABLE {
            Verdict::Exhausted { retry_after: None }
        } else {
            Verdict::Fine
        }
    });
    assert!(!detector.needs_body());
    assert_eq!(
        detector.classify(StatusCode::SERVICE_UNAVAILABLE, &headers(&[]), &[]),
        Verdict::Exhausted { retry_after: None }
    );
}

#[test]
fn closure_detector_needs_body() {
    let detector = |_: StatusCode, _: &HeaderMap, body: &[u8]| {
        if body == b"quota" {
            Verdict::Exhausted { retry_after: None }
        } else {
            Verdict::Fine
        }
    };
    assert!(Detector::needs_body(&detector));
    assert_eq!(
        detector.classify(StatusCode::OK, &headers(&[]), b"quota"),
        Verdict::Exhausted { retry_after: None }
    );
}

#[test]
fn default_detector_needs_no_body() {
    assert!(!DefaultDetector::default().needs_body());
    let limited = headers(&[("retry-after", "3")]);
    let a = DefaultDetector.classify(StatusCode::TOO_MANY_REQUESTS, &limited, b"a");
    let b = DefaultDetector.classify(StatusCode::TOO_MANY_REQUESTS, &limited, b"b");
    assert_eq!(a, b);
}

#[test]
fn only_success_can_be_depleted() {
    let spent = headers(&[("ratelimit-remaining", "0")]);
    let unsaid = Verdict::Depleted { retry_after: None };
    for (status, verdict) in [
        (200, unsaid),
        (204, unsaid),
        (299, unsaid),
        (199, Verdict::Fine),
        (300, Verdict::Fine),
        (404, Verdict::Fine),
        (428, Verdict::Fine),
        (429, Verdict::Exhausted { retry_after: None }),
        (430, Verdict::Fine),
        (503, Verdict::Fine),
    ] {
        let status = StatusCode::from_u16(status).unwrap();
        assert_eq!(DefaultDetector.classify(status, &spent, &[]), verdict, "{status}");
    }
}

#[test]
fn either_header_tells_that_the_quota_is_spent() {
    let unsaid = Verdict::Depleted { retry_after: None };
    for (pairs, verdict) in [
        (vec![("x-ratelimit-remaining", "0")], unsaid),
        (vec![("ratelimit-remaining", "0")], unsaid),
        (vec![("x-ratelimit-remaining", "5"), ("ratelimit-remaining", "0")], unsaid),
        (vec![("x-ratelimit-remaining", "none"), ("ratelimit-remaining", "0")], unsaid),
        (vec![("x-ratelimit-remaining", " 0 ")], unsaid),
        (vec![("x-ratelimit-remaining", "-0.00")], unsaid),
        (vec![("x-ratelimit-remaining", "0e7")], unsaid),
        (vec![("x-ratelimit-remaining", "0.0001")], Verdict::Fine),
        (vec![("x-ratelimit-remaining", "0.00000000000001")], Verdict::Fine),
        (vec![("x-ratelimit-remaining", "-1")], Verdict::Fine),
        (vec![("x-ratelimit-remaining", "nan")], Verdict::Fine),
        (vec![("x-ratelimit-remaining", "")], Verdict::Fine),
        (vec![("x-ratelimit-remaining", "1"), ("x-ratelimit-remaining", "0")], Verdict::Fine),
        (vec![], Verdict::Fine),
    ] {
        let verdict_of = DefaultDetector.classify(StatusCode::OK, &headers(&pairs), &[]);
        assert_eq!(verdict_of, verdict, "{pairs:?}");
    }
}

#[test]
fn retry_after_comes_before_the_resets() {
    let all = [
        ("retry-after", "1"),
        ("ratelimit-reset", "2"),
        ("x-ratelimit-reset", "3"),
    ];
    assert_eq!(retry_after(&headers(&all)), Some(Duration::from_secs(1)));
    assert_eq!(retry_after(&headers(&all[1..])), Some(Duration::from_secs(2)));
    assert_eq!(retry_after(&headers(&all[2..])), Some(Duration::from_secs(3)));
    assert_eq!(retry_after(&headers(&[])), None);
}

#[test]
fn unreadable_header_falls_through_to_the_next() {
    let date = ("retry-after", "Wed, 21 Oct 2026 07:28:00 GMT");
    let wait = retry_after(&headers(&[date, ("ratelimit-reset", "7")]));
    assert_eq!(wait, Some(Duration::from_secs(7)));
    let wait = retry_after(&headers(&[date, ("ratelimit-reset", "?"), ("x-ratelimit-reset", "9")]));
    assert_eq!(wait, Some(Duration::from_secs(9)));
}

#[test]
fn first_value_of_a_repeated_header_counts() {
    let wait = retry_after(&headers(&[("retry-after", "5"), ("retry-after", "6")]));
    assert_eq!(wait, Some(Duration::from_secs(5)));
}

#[test]
fn value_that_is_not_visible_text_is_no_number() {
    let mut map = HeaderMap::new();
    map.insert("retry-after", HeaderValue::from_bytes(&[51, 48, 200]).unwrap());
    assert_eq!(retry_after(&map), None);
    map.insert("retry-after", HeaderValue::from_bytes(b"\t30\t").unwrap());
    assert_eq!(retry_after(&map), Some(Duration::from_secs(30)));
}

#[test]
fn timestamps_are_held_against_the_clock() {
    let now = Duration::new(1_700_000_000, 250_000_000);
    let at = |text: &str| retry_after_at(&headers(&[("x-ratelimit-reset", text)]), now);
    assert_eq!(at("1700000010"), Some(Duration::from_secs(10)));
    assert_eq!(at("1700000010.25"), Some(Duration::from_secs(10)));
    assert_eq!(at("1700000010.250000001"), Some(Duration::from_secs(11)));
    assert_eq!(at("1.70000001e9"), Some(Duration::from_secs(10)));
    assert_eq!(at("1700000000"), Some(Duration::from_secs(0)));
    assert_eq!(at("1000000000"), Some(Duration::from_secs(0)));
    assert_eq!(at("999999999"), Some(Duration::from_secs(999_999_999)));
    assert_eq!(at("999999999.5"), Some(Duration::from_secs(1_000_000_000)));
    assert_eq!(at("-1700000010"), Some(Duration::from_secs(0)));
    assert_eq!(at("inf"), Some(Duration::from_secs(u64::MAX)));
}

#[test]
fn only_the_last_header_can_be_a_timestamp() {
    let now = Duration::from_secs(1_700_000_000);
    let wait = retry_after_at(&headers(&[("retry-after", "1700000010")]), now);
    assert_eq!(wait, Some(Duration::from_secs(1_700_000_010)));
    let wait = retry_after_at(&headers(&[("ratelimit-reset", "1700000010")]), now);
    assert_eq!(wait, Some(Duration::from_secs(1_700_000_010)));
}

#[test]
fn deltas_do_not_depend_on_the_clock() {
    let delta = headers(&[("x-ratelimit-reset", "42.5")]);
    for now in [0, 5, 1_700_000_000] {
        let wait = retry_after_at(&delta, Duration::from_secs(now));
        assert_eq!(wait, Some(Duration::from_secs(43)));
    }
}

#[test]
fn numbers_are_read_in_every_form() {
    for (text, seconds) in [
        ("0", 0),
        ("007", 7),
        ("+7", 7),
        ("  30 ", 30),
        ("1.0", 1),
        ("1.", 1),
        (".5", 1),
        ("+.5e1", 5),
        ("1.0000000001", 2),
        ("1.00000000000000000000000001", 2),
        ("0.999", 1),
        ("1e3", 1000),
        ("1E3", 1000),
        ("1e+3", 1000),
        ("1500e-3", 2),
        ("2000e-3", 2),
        ("12.5e1", 125),
        ("1e-400", 1),
        ("0e400", 0),
        ("-5", 0),
        ("-0.5", 0),
        ("-inf", 0),
        ("nan", 0),
        ("-NaN", 0),
        ("inf", u64::MAX),
        ("+Infinity", u64::MAX),
        ("1e400", u64::MAX),
        ("18446744073709551615", u64::MAX),
        ("18446744073709551616", u64::MAX),
        ("99999999999999999999999999999999999999999999", u64::MAX),
        ("9007199254740993", 9_007_199_254_740_993),
    ] {
        assert_eq!(wait_for(text), Some(seconds), "{text:?}");
    }
}

#[test]
fn what_is_no_number_is_refused() {
    for text in [
        "", " ", ".", "+", "-", "e", "e5", ".e5", "1e", "1e+", "1e1.5", "1.2.3", "1_000", "1,5",
        "0x10", "--1", "+-1", "1 2", "infinit", "nano", "in", "5s", "12:30",
    ] {
        assert_eq!(wait_for(text), None, "{text:?}");
    }
}

#[test]
fn clock_before_the_epoch_counts_as_the_epoch() {
    let elapsed = Duration::new(1_700_000_000, 5);
    assert_eq!(epoch_time(Some(elapsed)), elapsed);
    assert_eq!(epoch_time(None), Duration::ZERO);
    let reset = headers(&[("x-ratelimit-reset", "1700000010")]);
    let wait = retry_after_at(&reset, epoch_time(None));
    assert_eq!(wait, Some(Duration::from_secs(1_700_000_010)));
}
