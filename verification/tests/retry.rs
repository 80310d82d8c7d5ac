use mnamer::cli::EpisodeApi;
use mnamer::retry::{
    check_status, failed_after, fallback_delay, is_retryable_status, retry_after_delay, tmdb_step,
    tvmaze_step, LookupError, Lookups, Reply, RetryStep, MAX_RETRY_WAIT,
};
use std::time::{Duration, SystemTime};

const SECOND: u128 = 1_000_000_000;

fn delay(header: Option<&str>, now: SystemTime, fallback: Duration) -> Duration {
    let since = now.duration_since(SystemTime::UNIX_EPOCH).unwrap();
    let nanos = retry_after_delay(
        &header.map(str::to_string),
        since.as_nanos(),
        fallback.as_nanos(),
    );
    Duration::new((nanos / SECOND) as u64, (nanos % SECOND) as u32)
}

#[test]
fn retry_after_supports_seconds_dates_and_invalid_headers() {
    let now = SystemTime::UNIX_EPOCH + Duration::from_secs(1_700_000_000);
    let fallback = Duration::from_millis(250);
    assert_eq!(delay(Some("5"), now, fallback), Duration::from_secs(5));
    let future = httpdate::fmt_http_date(now + Duration::from_secs(20));
    assert_eq!(delay(Some(&future), now, fallback), Duration::from_secs(20));
    let past = httpdate::fmt_http_date(now - Duration::from_secs(20));
    assert_eq!(delay(Some(&past), now, fallback), Duration::ZERO);
    assert_eq!(delay(Some("invalid"), now, fallback), fallback);
    assert_eq!(delay(None, now, fallback), fallback);
    assert!(delay(Some("120"), now, fallback).as_nanos() > MAX_RETRY_WAIT);
}

#[test]
fn headers_are_trimmed() {
    assert_eq!(retry_after_delay(&Some(" 7 ".to_string()), 0, 1), 7 * SECOND);
    assert_eq!(
        retry_after_delay(&Some(" Thu, 01 Jan 1970 00:00:09 GMT ".to_string()), SECOND, 1),
        8 * SECOND
    );
    assert_eq!(retry_after_delay(&Some("-1".to_string()), 0, 1), 1);
}

#[test]
fn deferred_client_does_not_send_more_requests() {
    let client = Lookups { deferred: true };
    let error = client.begin().unwrap_err();
    assert!(error.message().contains("lookups are deferred"));
}

#[test]
fn retries_only_temporary_http_failures() {
    assert!(is_retryable_status(
        reqwest::StatusCode::TOO_MANY_REQUESTS.as_u16()
    ));
    assert!(is_retryable_status(
        reqwest::StatusCode::SERVICE_UNAVAILABLE.as_u16()
    ));
    assert!(!is_retryable_status(
        reqwest::StatusCode::UNAUTHORIZED.as_u16()
    ));
    assert!(!is_retryable_status(
        reqwest::StatusCode::NOT_FOUND.as_u16()
    ));
}

#[test]
fn exhausted_rate_limits_and_long_waits_defer_the_run() {
    let limited = |delay: u128| Reply::Response { status: 429, delay };
    let mut client = Lookups::new();
    assert_eq!(client.after(1, limited(SECOND)), RetryStep::Wait { delay: SECOND });
    assert_eq!(client.after(2, limited(30 * SECOND)), RetryStep::Wait { delay: 30 * SECOND });
    assert!(client.begin().is_ok());
    assert_eq!(client.after(3, limited(SECOND)), RetryStep::AcceptAndDefer);
    assert_eq!(client.begin(), Err(LookupError::Deferred));

    let mut client = Lookups::new();
    assert_eq!(client.after(1, limited(30 * SECOND + 1)), RetryStep::RefuseWait);
    assert!(client.deferred);
    assert!(LookupError::LongWait.message().contains("longer than 30 seconds"));

    let mut client = Lookups::new();
    let broken = Reply::Response { status: 503, delay: fallback_delay(3) };
    assert_eq!(client.after(3, broken), RetryStep::Accept);
    assert!(!client.deferred);
}

#[test]
fn faults_are_repeated_only_where_they_may_pass() {
    assert_eq!(
        tmdb_step(2, Reply::Fault { temporary: true }),
        RetryStep::Wait { delay: SECOND / 2 }
    );
    assert_eq!(tmdb_step(1, Reply::Fault { temporary: false }), RetryStep::Fail);
    assert_eq!(tmdb_step(3, Reply::Fault { temporary: true }), RetryStep::Fail);
    assert_eq!(tmdb_step(1, Reply::Response { status: 404, delay: 0 }), RetryStep::Accept);
    assert_eq!(failed_after(1), "TMDb request failed after 1 attempt");
    assert_eq!(failed_after(3), "TMDb request failed after 3 attempts");
}

#[test]
fn tvmaze_waits_longer_where_requests_are_limited() {
    let reply = |status: u16| Reply::Response { status, delay: 0 };
    assert_eq!(tvmaze_step(2, reply(429)), RetryStep::Wait { delay: 4 * SECOND });
    assert_eq!(tvmaze_step(2, reply(502)), RetryStep::Wait { delay: SECOND / 2 });
    assert_eq!(tvmaze_step(3, reply(429)), RetryStep::Accept);
    assert_eq!(tvmaze_step(1, reply(200)), RetryStep::Accept);
    assert_eq!(
        tvmaze_step(1, Reply::Fault { temporary: false }),
        RetryStep::Wait { delay: SECOND / 4 }
    );
    assert_eq!(tvmaze_step(3, Reply::Fault { temporary: true }), RetryStep::Fail);
}

#[test]
fn statuses_without_success_are_refused() {
    assert_eq!(check_status(EpisodeApi::Tmdb, 200, "200 OK"), Ok(()));
    assert!(check_status(EpisodeApi::Tmdb, 401, "401 Unauthorized")
        .unwrap_err()
        .starts_with("TMDb rejected the API key (401 Unauthorized)."));
    assert_eq!(
        check_status(EpisodeApi::Tvmaze, 401, "401 Unauthorized").unwrap_err(),
        "TVmaze request returned HTTP 401 Unauthorized"
    );
    assert_eq!(
        check_status(EpisodeApi::Tvmaze, 429, "429 Too Many Requests").unwrap_err(),
        "TVmaze rate limit reached. Try again later."
    );
}

#[test]
fn requests_are_sent_three_times_at_most() {
    for status in [429, 500, 503] {
        let mut client = Lookups::new();
        let mut sent: u32 = 0;
        loop {
            sent += 1;
            match client.after(sent, Reply::Response { status, delay: SECOND }) {
                RetryStep::Wait { delay } => assert!(delay <= MAX_RETRY_WAIT),
                _ => break,
            }
        }
        assert_eq!(sent, 3);
    }
}
