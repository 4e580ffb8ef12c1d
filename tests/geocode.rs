use maimap::geocode::{
    backoff_delay_ms, GeocodeAttempts, GeocodeError, GeocodeReply, GeocodeStep, MAX_RETRIES,
    POLICY_STATUS,
};
use maimap::record::Location;

fn reply(status: i32, message: &str, location: Option<Location>) -> GeocodeReply {
    GeocodeReply { status, message: message.to_string(), location }
}

fn here() -> Location {
    Location { lat: "31.23".to_string(), lng: "121.47".to_string() }
}

/// Feeds scripted answers to the retry policy, as the caller's loop does, and
/// returns the outcome, the number of requests made and the total pause.
fn run(script: &[GeocodeReply]) -> (Result<Location, GeocodeError>, usize, u64) {
    let mut attempts = GeocodeAttempts::new();
    let mut slept: u64 = 0;
    for (n, r) in script.iter().enumerate() {
        match attempts.on_reply(r.clone()) {
            GeocodeStep::Resolved(l) => return (Ok(l), n + 1, slept),
            GeocodeStep::RetryNow => {}
            GeocodeStep::RetryAfter(ms) => slept += ms,
            GeocodeStep::Failed(e) => return (Err(e), n + 1, slept),
        }
    }
    panic!("script ran out");
}

#[test]
fn policy_status_retries_at_once() {
    let script = [reply(POLICY_STATUS, "need policy", None), reply(0, "ok", Some(here()))];
    let (out, calls, slept) = run(&script);
    assert_eq!(out, Ok(here()));
    assert_eq!(calls, 2);
    assert_eq!(slept, 0);
}

#[test]
fn generic_failure_exhausts_retries() {
    let script: Vec<GeocodeReply> = (0..10).map(|_| reply(310, "bad request", None)).collect();
    let (out, calls, slept) = run(&script);
    assert_eq!(out, Err(GeocodeError { status: 310, message: "bad request".to_string() }));
    assert_eq!(calls, 1 + MAX_RETRIES as usize);
    assert_eq!(slept, 2000 + 3000 + 4500);
}

#[test]
fn policy_retry_uses_no_attempt() {
    let mut script = vec![reply(POLICY_STATUS, "need policy", None)];
    script.extend((0..10).map(|_| reply(311, "busy", None)));
    let (out, calls, slept) = run(&script);
    assert_eq!(out, Err(GeocodeError { status: 311, message: "busy".to_string() }));
    assert_eq!(calls, 2 + MAX_RETRIES as usize);
    assert_eq!(slept, 9500);
}

#[test]
fn second_policy_status_is_an_ordinary_failure() {
    let mut attempts = GeocodeAttempts::new();
    assert!(matches!(attempts.on_reply(reply(POLICY_STATUS, "p", None)), GeocodeStep::RetryNow));
    assert!(attempts.use_policy);
    assert!(matches!(attempts.on_reply(reply(POLICY_STATUS, "p", None)), GeocodeStep::RetryAfter(2000)));
    assert_eq!(attempts.attempt, 1);
}

#[test]
fn success_after_backoff() {
    let script = [reply(500, "e", None), reply(500, "e", None), reply(0, "ok", Some(here()))];
    let (out, calls, slept) = run(&script);
    assert_eq!(out, Ok(here()));
    assert_eq!(calls, 3);
    assert_eq!(slept, 5000);
}

#[test]
fn success_without_location_fails() {
    let (out, calls, _) = run(&[reply(0, "no result", None)]);
    assert_eq!(out, Err(GeocodeError { status: 0, message: "no result".to_string() }));
    assert_eq!(calls, 1);
}

#[test]
fn backoff_grows_by_half() {
    assert_eq!(backoff_delay_ms(0), 2000);
    assert_eq!(backoff_delay_ms(1), 3000);
    assert_eq!(backoff_delay_ms(2), 4500);
}

#[test]
fn query_adds_policy_once_asked() {
    let mut attempts = GeocodeAttempts::new();
    let q = attempts.query("Road 1", "KEY");
    assert_eq!(
        q,
        vec![("address".to_string(), "Road 1".to_string()), ("key".to_string(), "KEY".to_string())]
    );
    attempts.on_reply(reply(POLICY_STATUS, "p", None));
    let q = attempts.query("Road 1", "KEY");
    assert_eq!(q.len(), 3);
    assert_eq!(q[2], ("policy".to_string(), "1".to_string()));
}
