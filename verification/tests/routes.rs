use whep_signaling::error::decimal;
use whep_signaling::reply::{failure_reply, location, no_content_reply, offer_reply, refusal_reply};
use whep_signaling::resource::digit_str;
use whep_signaling::{
    abandon, expire, patch, publish, subscribe, Body, Coordinator, PatchStep, PendingOffer,
    PublishStep, Reason, Reply, ResourceId, SessionDescription, SignalError, SubscribeStep,
    ValidationError,
};

const OFFER: &str = "v=0\r\no=- 0 0 IN IP4 127.0.0.1\r\ns=-\r\nt=0 0\r\n";
const ANSWER: &str = "v=0\r\no=- 1 1 IN IP4 127.0.0.1\r\ns=answer\r\nt=0 0\r\na=recvonly\r\n";
const R1: &str = "0000000000000000000000000000002a";

fn created(token_text: &str, body: &str) -> Reply {
    Reply {
        status: 201,
        location: Some(format!("/channel/{}", token_text)),
        body: Body::Sdp(body.to_string()),
    }
}

fn text(status: u16, words: &str) -> Reply {
    Reply { status, location: None, body: Body::Text(words.to_string()) }
}

fn stored_reply(step: PublishStep) -> Reply {
    match step {
        PublishStep::Stored { reply, .. } => reply,
        PublishStep::Rejected(reply) => panic!("rejected: {:?}", reply),
    }
}

#[test]
fn subscriber_after_the_offer_is_served_with_it() {
    let mut coordinator = Coordinator::new();
    let reply = stored_reply(publish(OFFER.to_string(), 42, &mut coordinator));
    assert_eq!(reply, created(R1, OFFER));
    match subscribe("", 7, &mut coordinator) {
        SubscribeStep::Served { subscriber, reply } => {
            assert_eq!(subscriber, ResourceId { token: 7 });
            assert_eq!(reply, created(R1, OFFER));
        }
        other => panic!("not served: {:?}", other),
    }
}

#[test]
fn offer_after_the_subscriber_releases_its_wait() {
    let mut coordinator = Coordinator::new();
    let ticket = match subscribe("", 7, &mut coordinator) {
        SubscribeStep::Suspended { subscriber, ticket } => {
            assert_eq!(subscriber, ResourceId { token: 7 });
            ticket
        }
        other => panic!("not suspended: {:?}", other),
    };
    match publish(OFFER.to_string(), 42, &mut coordinator) {
        PublishStep::Stored { reply, accepted } => {
            assert_eq!(reply, created(R1, OFFER));
            assert_eq!(accepted.released, vec![ticket]);
            assert_eq!(offer_reply(&accepted.offer), created(R1, OFFER));
        }
        PublishStep::Rejected(reply) => panic!("rejected: {:?}", reply),
    }
}

#[test]
fn suspended_requests_complete_with_the_offer() {
    let mut coordinator = Coordinator::new();
    let first = match subscribe("", 1, &mut coordinator) {
        SubscribeStep::Suspended { ticket, .. } => ticket,
        other => panic!("not suspended: {:?}", other),
    };
    let second = match subscribe("", 2, &mut coordinator) {
        SubscribeStep::Suspended { ticket, .. } => ticket,
        other => panic!("not suspended: {:?}", other),
    };
    assert_ne!(first, second);
    assert_eq!(coordinator.waiting_count(), 2);
    match publish(OFFER.to_string(), 42, &mut coordinator) {
        PublishStep::Stored { accepted, .. } => {
            assert_eq!(accepted.released, vec![first, second]);
            let reply = offer_reply(&accepted.offer);
            assert_eq!(reply.status, 201);
            assert_eq!(reply.body, Body::Sdp(OFFER.to_string()));
        }
        PublishStep::Rejected(reply) => panic!("rejected: {:?}", reply),
    }
    assert_eq!(coordinator.waiting_count(), 0);
    assert_eq!(expire(first, &mut coordinator), None);
}

#[test]
fn answer_is_taken_once() {
    let mut coordinator = Coordinator::new();
    stored_reply(publish(OFFER.to_string(), 42, &mut coordinator));
    match patch(ANSWER.to_string(), R1, &mut coordinator) {
        PatchStep::Filed { id, answer, reply } => {
            assert_eq!(id, ResourceId { token: 42 });
            assert_eq!(answer.as_str(), ANSWER);
            assert_eq!(reply, Reply { status: 204, location: None, body: Body::Empty });
        }
        PatchStep::Rejected(reply) => panic!("rejected: {:?}", reply),
    }
    assert_eq!(
        patch(ANSWER.to_string(), R1, &mut coordinator),
        PatchStep::Rejected(text(409, "resource already answered"))
    );
    assert_eq!(coordinator.answer(ResourceId { token: 42 }).unwrap().as_str(), ANSWER);
}

#[test]
fn second_answer_does_not_replace_the_first() {
    let mut coordinator = Coordinator::new();
    let id = coordinator.register_subscriber(5);
    let path = id.to_text();
    assert!(matches!(patch(ANSWER.to_string(), &path, &mut coordinator), PatchStep::Filed { .. }));
    let step = patch(OFFER.to_string(), &path, &mut coordinator);
    assert_eq!(step, PatchStep::Rejected(failure_reply(SignalError::Conflict)));
    assert_eq!(coordinator.answer(id).unwrap().as_str(), ANSWER);
}

#[test]
fn subscriber_cannot_bring_an_offer() {
    let mut coordinator = Coordinator::new();
    let step = subscribe(OFFER, 7, &mut coordinator);
    assert_eq!(step, SubscribeStep::Refused(text(400, "client-initiated offers not supported")));
    assert!(!coordinator.is_live(ResourceId { token: 7 }));
    assert_eq!(coordinator.waiting_count(), 0);
    assert_eq!(subscribe(" ", 7, &mut coordinator), SubscribeStep::Refused(refusal_reply()));
}

#[test]
fn wait_ends_at_its_deadline() {
    let mut coordinator = Coordinator::new();
    let ticket = match subscribe("", 7, &mut coordinator) {
        SubscribeStep::Suspended { ticket, .. } => ticket,
        other => panic!("not suspended: {:?}", other),
    };
    let other = match subscribe("", 8, &mut coordinator) {
        SubscribeStep::Suspended { ticket, .. } => ticket,
        step => panic!("not suspended: {:?}", step),
    };
    assert_eq!(expire(ticket, &mut coordinator), Some(text(504, "no offer became available in time")));
    assert_eq!(expire(ticket, &mut coordinator), None);
    assert_eq!(coordinator.waiting_count(), 1);
    match publish(OFFER.to_string(), 42, &mut coordinator) {
        PublishStep::Stored { accepted, .. } => assert_eq!(accepted.released, vec![other]),
        PublishStep::Rejected(reply) => panic!("rejected: {:?}", reply),
    }
}

#[test]
fn publish_refuses_a_malformed_offer() {
    let mut coordinator = Coordinator::new();
    assert_eq!(
        publish("v=0\r\ns=-\r\n".to_string(), 42, &mut coordinator),
        PublishStep::Rejected(text(400, "line 2: record is out of order"))
    );
    assert_eq!(
        publish(String::new(), 42, &mut coordinator),
        PublishStep::Rejected(text(400, "line 1: session description is empty"))
    );
    assert!(!coordinator.is_offered());
    assert!(!coordinator.is_live(ResourceId { token: 42 }));
}

#[test]
fn publish_keeps_waiting_requests_when_it_refuses() {
    let mut coordinator = Coordinator::new();
    subscribe("", 7, &mut coordinator);
    publish("nonsense".to_string(), 42, &mut coordinator);
    assert_eq!(coordinator.waiting_count(), 1);
}

#[test]
fn publish_supersedes_the_offer_for_later_subscribers() {
    let mut coordinator = Coordinator::new();
    stored_reply(publish(OFFER.to_string(), 42, &mut coordinator));
    let reply = stored_reply(publish(ANSWER.to_string(), 42, &mut coordinator));
    assert_eq!(reply, created("0000000000000000000000000000002b", ANSWER));
    match subscribe("", 0, &mut coordinator) {
        SubscribeStep::Served { reply, .. } => {
            assert_eq!(reply, created("0000000000000000000000000000002b", ANSWER))
        }
        other => panic!("not served: {:?}", other),
    }
}

#[test]
fn patch_refuses_a_malformed_answer_first() {
    let mut coordinator = Coordinator::new();
    stored_reply(publish(OFFER.to_string(), 42, &mut coordinator));
    assert_eq!(
        patch("v=1\r\n".to_string(), R1, &mut coordinator),
        PatchStep::Rejected(text(400, "line 1: unsupported protocol version"))
    );
    assert_eq!(
        patch("v=0".to_string(), "no such path", &mut coordinator),
        PatchStep::Rejected(text(400, "line 1: line does not end in CRLF"))
    );
    assert_eq!(coordinator.answer(ResourceId { token: 42 }), None);
}

#[test]
fn patch_refuses_an_unknown_resource() {
    let mut coordinator = Coordinator::new();
    stored_reply(publish(OFFER.to_string(), 42, &mut coordinator));
    let not_found = PatchStep::Rejected(text(404, "unknown resource"));
    assert_eq!(patch(ANSWER.to_string(), "0000000000000000000000000000002b", &mut coordinator), not_found);
    assert_eq!(patch(ANSWER.to_string(), "2a", &mut coordinator), not_found);
    assert_eq!(patch(ANSWER.to_string(), "", &mut coordinator), not_found);
    assert_eq!(patch(ANSWER.to_string(), "0000000000000000000000000000002A", &mut coordinator), not_found);
    assert_eq!(coordinator.answer(ResourceId { token: 42 }), None);
}

#[test]
fn patch_refuses_a_session_that_ended() {
    let mut coordinator = Coordinator::new();
    let id = coordinator.register_subscriber(5);
    coordinator.release(id);
    assert_eq!(
        patch(ANSWER.to_string(), &id.to_text(), &mut coordinator),
        PatchStep::Rejected(failure_reply(SignalError::NotFound))
    );
}

#[test]
fn abandon_takes_a_registration_back() {
    let mut coordinator = Coordinator::new();
    let (subscriber, ticket) = match subscribe("", 7, &mut coordinator) {
        SubscribeStep::Suspended { subscriber, ticket } => (subscriber, ticket),
        other => panic!("not suspended: {:?}", other),
    };
    let reply = abandon(subscriber, Some(ticket), &mut coordinator);
    assert_eq!(reply, text(502, "media pipeline failure"));
    assert!(!coordinator.is_live(subscriber));
    assert_eq!(coordinator.waiting_count(), 0);

    stored_reply(publish(OFFER.to_string(), 42, &mut coordinator));
    let subscriber = match subscribe("", 7, &mut coordinator) {
        SubscribeStep::Served { subscriber, .. } => subscriber,
        other => panic!("not served: {:?}", other),
    };
    assert_eq!(abandon(subscriber, None, &mut coordinator), failure_reply(SignalError::Upstream));
    assert!(!coordinator.is_live(subscriber));
    assert!(coordinator.is_offered());
}

#[test]
fn location_is_the_channel_path_of_the_identifier() {
    assert_eq!(location(ResourceId { token: 0 }), "/channel/00000000000000000000000000000000");
    assert_eq!(location(ResourceId { token: 0xabc }), "/channel/00000000000000000000000000000abc");
}

#[test]
fn replies_have_the_status_of_their_kind() {
    let offer = PendingOffer {
        id: ResourceId { token: 42 },
        sdp: SessionDescription::parse(OFFER.to_string()).unwrap(),
    };
    assert_eq!(offer_reply(&offer), created(R1, OFFER));
    assert_eq!(no_content_reply(), Reply { status: 204, location: None, body: Body::Empty });
    assert_eq!(refusal_reply(), text(400, "client-initiated offers not supported"));
    assert_eq!(failure_reply(SignalError::NotFound), text(404, "unknown resource"));
    assert_eq!(failure_reply(SignalError::Conflict), text(409, "resource already answered"));
    assert_eq!(failure_reply(SignalError::Upstream), text(502, "media pipeline failure"));
    assert_eq!(failure_reply(SignalError::Timeout), text(504, "no offer became available in time"));
}

#[test]
fn every_failure_has_its_status_and_words() {
    let fault = |reason| SignalError::Validation(ValidationError { line: 3, reason });
    let all = [
        (fault(Reason::Empty), 400, "line 4: session description is empty"),
        (fault(Reason::Unterminated), 400, "line 4: line does not end in CRLF"),
        (fault(Reason::Malformed), 400, "line 4: line is not of the form <type>=<value>"),
        (fault(Reason::UnknownType), 400, "line 4: unknown record type"),
        (fault(Reason::BadValue), 400, "line 4: record value is empty or holds a forbidden byte"),
        (fault(Reason::UnsupportedVersion), 400, "line 4: unsupported protocol version"),
        (fault(Reason::Misplaced), 400, "line 4: record is out of order"),
        (fault(Reason::Incomplete), 400, "line 4: session description ends before its timing record"),
        (SignalError::NotFound, 404, "unknown resource"),
        (SignalError::Conflict, 409, "resource already answered"),
        (SignalError::Upstream, 502, "media pipeline failure"),
        (SignalError::Timeout, 504, "no offer became available in time"),
    ];
    for (error, status, words) in all {
        assert_eq!(error.status(), status);
        assert_eq!(error.message(), words);
        assert_eq!(failure_reply(error), text(status, words));
    }
    assert_eq!(Reason::Misplaced.describe(), "record is out of order");
}

#[test]
fn a_fault_is_told_with_its_line_counted_from_one() {
    let at = |line| ValidationError { line, reason: Reason::Malformed }.describe();
    assert_eq!(at(0), "line 1: line is not of the form <type>=<value>");
    assert_eq!(at(8), "line 9: line is not of the form <type>=<value>");
    assert_eq!(at(9), "line 10: line is not of the form <type>=<value>");
    assert_eq!(at(1233), "line 1234: line is not of the form <type>=<value>");
    assert_eq!(
        at(usize::MAX),
        format!("line {}: line is not of the form <type>=<value>", usize::MAX as u128 + 1)
    );
}

#[test]
fn decimal_writes_a_number_in_digits() {
    assert_eq!(decimal(0), "0");
    assert_eq!(decimal(7), "7");
    assert_eq!(decimal(10), "10");
    assert_eq!(decimal(109), "109");
    assert_eq!(decimal(9_876_543_210), "9876543210");
    assert_eq!(decimal(u128::MAX), "340282366920938463463374607431768211455");
}

#[test]
fn digit_str_is_the_text_of_one_digit() {
    let digits: Vec<&str> = (0..16u8).map(digit_str).collect();
    assert_eq!(digits.concat(), "0123456789abcdef");
}
