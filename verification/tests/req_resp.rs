use hyveos::debug_events::{Response, ResponseError};
use hyveos::req_resp::{is_match, response_or_timeout, Actor};

type TestActor = Actor<&'static str, u8, &'static str, &'static str>;

#[test]
fn req_resp_match_rule() {
    assert!(is_match::<&str>(&None, &None, false));
    assert!(!is_match::<&str>(&None, &Some("t".to_string()), true));
    assert!(!is_match(&Some("q"), &None, true));
    assert!(is_match(&Some("q"), &Some("t".to_string()), true));
    assert!(!is_match(&Some("q"), &Some("t".to_string()), false));
}

#[test]
fn req_resp_timeout_answer() {
    assert!(matches!(response_or_timeout(None), Response::Error(ResponseError::Timeout)));
    match response_or_timeout(Some(Response::Data(vec![1, 2]))) {
        Response::Data(d) => assert_eq!(d, vec![1, 2]),
        _ => panic!("the answer was lost"),
    }
}

#[test]
fn req_resp_self_request_is_recognised() {
    let actor: TestActor = Actor::new(Some(vec![0, 32, 7]));
    assert!(actor.is_self(&vec![0, 32, 7]));
    assert!(!actor.is_self(&vec![0, 32, 8]));
    let unknown: TestActor = Actor::new(None);
    assert!(!unknown.is_self(&vec![0, 32, 7]));
}

#[test]
fn req_resp_subscription_numbers_are_new() {
    let mut actor: TestActor = Actor::new(None);
    let a = actor.subscribe(Some("topic"), 1);
    let b = actor.subscribe(None, 2);
    assert_ne!(a, b);
    assert_eq!(actor.subscriptions().len(), 2);
    actor.unsubscribe(a);
    let c = actor.subscribe(Some("other"), 3);
    assert_ne!(c, b);
    let subs = actor.subscriptions();
    assert_eq!(subs.len(), 2);
    assert!(subs.iter().any(|(_, (q, tx))| *q == None && *tx == 2));
    assert!(subs.iter().any(|(_, (q, tx))| *q == Some("other") && *tx == 3));
    assert!(!subs.iter().any(|(_, (q, _))| *q == Some("topic")));
}

#[test]
fn req_resp_refused_request_is_answered_not_subscribed() {
    let mut actor: TestActor = Actor::new(None);
    match actor.route(5, Ok((99, "channel")), Some("weather".to_string()), false) {
        Some((Ok((debug_id, channel)), Response::Error(ResponseError::TopicNotSubscribed(topic)))) => {
            assert_eq!(debug_id, 99);
            assert_eq!(channel, "channel");
            assert_eq!(topic, Some("weather".to_string()));
        }
        _ => panic!("the refused request was not answered"),
    }
    assert!(actor.respond(5, Response::Data(vec![])).is_none());
}

#[test]
fn req_resp_taken_request_waits_for_the_answer() {
    let mut actor: TestActor = Actor::new(None);
    assert!(actor.route(6, Err("local caller"), None, true).is_none());
    match actor.respond(6, Response::Data(vec![4])) {
        Some((Err(caller), Response::Data(d))) => {
            assert_eq!(caller, "local caller");
            assert_eq!(d, vec![4]);
        }
        _ => panic!("the answer did not reach the caller"),
    }
    assert!(actor.respond(6, Response::Data(vec![5])).is_none());
}

#[test]
fn req_resp_outbound_answer_reaches_caller_once() {
    let mut actor: TestActor = Actor::new(None);
    actor.record_outbound(1, "first");
    actor.record_outbound(2, "second");
    match actor.on_response(2, Response::Error(ResponseError::Script("bad".to_string()))) {
        Some((caller, Response::Error(ResponseError::Script(reason)))) => {
            assert_eq!(caller, "second");
            assert_eq!(reason, "bad");
        }
        _ => panic!("the answer did not reach the caller"),
    }
    assert!(actor.on_response(2, Response::Data(vec![])).is_none());
    assert!(matches!(actor.on_response(1, Response::Data(vec![])), Some(("first", _))));
}
