use http::{HeaderMap, HeaderName, HeaderValue};
use underclass::health::{classify, parse_retry_after_headers, RetryNumbers};
use underclass::models::Outcome;

fn headers(pairs: &[(&str, &str)]) -> HeaderMap {
    let mut m = HeaderMap::new();
    for (k, v) in pairs {
        m.insert(
            HeaderName::from_bytes(k.as_bytes()).unwrap(),
            HeaderValue::from_str(v).unwrap(),
        );
    }
    m
}

fn finite(h: &HeaderMap, name: &str) -> Option<f64> {
    let n = h.get(name)?.to_str().ok()?.trim().parse::<f64>().ok()?;
    (n.is_finite() && n >= 0.0).then_some(n)
}

fn numbers(h: &HeaderMap) -> RetryNumbers {
    RetryNumbers {
        ms: finite(h, "retry-after-ms").map(|n| n as i64),
        secs_as_ms: finite(h, "retry-after").map(|n| (n * 1000.0) as i64),
    }
}

#[test]
fn retry_after_ms_is_absolute() {
    let h = headers(&[("retry-after-ms", "1500.5")]);
    let now = 10_000;
    assert_eq!(parse_retry_after_headers(&h, &numbers(&h), now), Some(11_500));
}

#[test]
fn retry_after_seconds() {
    let h = headers(&[("retry-after", "30")]);
    assert_eq!(parse_retry_after_headers(&h, &numbers(&h), 1_000), Some(31_000));
}

#[test]
fn no_headers_returns_none() {
    let h = headers(&[]);
    assert_eq!(parse_retry_after_headers(&h, &numbers(&h), 1_000), None);
}

#[test]
fn status_classes() {
    let h = headers(&[]);
    let n = numbers(&h);
    assert!(matches!(classify(429, &h, &n, 60_000, 0), Outcome::QuotaExhausted { .. }));
    assert!(matches!(classify(401, &h, &n, 1, 0), Outcome::AuthFailed));
    assert!(matches!(classify(403, &h, &n, 1, 0), Outcome::AuthFailed));
    assert!(matches!(classify(502, &h, &n, 1, 0), Outcome::Transient));
    assert!(matches!(classify(200, &h, &n, 1, 0), Outcome::Success));
}

#[test]
fn copilot_429_uses_default_cooldown_when_no_header() {
    let h = headers(&[]);
    match classify(429, &h, &numbers(&h), 1_800_000, 5_000) {
        Outcome::QuotaExhausted { until_ms } => assert_eq!(until_ms, 1_805_000),
        other => panic!("expected quota, got {other:?}"),
    }
}

#[test]
fn http_date_uses_injected_clock() {
    let h = headers(&[("retry-after", "Thu, 01 Jan 1970 00:02:00 GMT")]);
    let n = numbers(&h);
    assert_eq!(parse_retry_after_headers(&h, &n, 10_000), Some(120_000));
    assert_eq!(parse_retry_after_headers(&h, &n, 130_000), None);
}

#[test]
fn milliseconds_come_before_seconds() {
    let h = headers(&[("retry-after-ms", " 250 "), ("retry-after", "30")]);
    assert_eq!(parse_retry_after_headers(&h, &numbers(&h), 1_000), Some(1_250));
    let h = headers(&[("retry-after-ms", "soon"), ("retry-after", "30")]);
    assert_eq!(parse_retry_after_headers(&h, &numbers(&h), 1_000), Some(31_000));
    let h = headers(&[("retry-after-ms", "-5"), ("retry-after", "whenever")]);
    assert_eq!(parse_retry_after_headers(&h, &numbers(&h), 1_000), None);
}

#[test]
fn dates_are_trimmed_and_deadlines_saturate() {
    let h = headers(&[("Retry-After", "  Fri, 15 May 2015 15:34:21 GMT  ")]);
    assert_eq!(parse_retry_after_headers(&h, &numbers(&h), 0), Some(1_431_704_061_000));
    let h = headers(&[("retry-after-ms", "9223372036854775807")]);
    assert_eq!(parse_retry_after_headers(&h, &numbers(&h), 5), Some(i64::MAX));
}

#[test]
fn header_that_is_no_text_is_ignored() {
    let mut h = HeaderMap::new();
    h.insert("retry-after", HeaderValue::from_bytes(&[0xff, 0x31]).unwrap());
    assert_eq!(parse_retry_after_headers(&h, &numbers(&h), 0), None);
}

#[test]
fn other_statuses_are_success() {
    let h = headers(&[]);
    let n = numbers(&h);
    assert_eq!(classify(404, &h, &n, 1, 0), Outcome::Success);
    assert_eq!(classify(499, &h, &n, 1, 0), Outcome::Success);
    assert_eq!(classify(500, &h, &n, 1, 0), Outcome::Transient);
    assert_eq!(classify(599, &h, &n, 1, 0), Outcome::Transient);
    assert_eq!(classify(600, &h, &n, 1, 0), Outcome::Success);
    assert_eq!(classify(999, &h, &n, 1, 0), Outcome::Success);
    assert_eq!(
        classify(429, &h, &n, i64::MAX, 10),
        Outcome::QuotaExhausted { until_ms: i64::MAX }
    );
}
