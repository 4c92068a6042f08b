use whep_signaling::coordinator::successor;
use whep_signaling::{
    Accepted, AwaitStep, Coordinator, PendingOffer, ResourceId, SessionDescription, SignalError,
};

fn description(name: &str) -> SessionDescription {
    SessionDescription::parse(format!("v=0\r\no=- 0 0 IN IP4 127.0.0.1\r\ns={}\r\nt=0 0\r\n", name)).unwrap()
}

fn offer(token: u128, name: &str) -> PendingOffer {
    PendingOffer { id: ResourceId { token }, sdp: description(name) }
}

#[test]
fn a_new_coordinator_is_empty() {
    let coordinator = Coordinator::new();
    assert!(!coordinator.is_offered());
    assert_eq!(coordinator.current_offer(), None);
    assert_eq!(coordinator.waiting_count(), 0);
    assert!(!coordinator.is_live(ResourceId { token: 0 }));
}

#[test]
fn submit_offer_stores_the_offer_under_a_fresh_identifier() {
    let mut coordinator = Coordinator::new();
    let accepted = coordinator.submit_offer(description("one"), 100);
    assert_eq!(accepted, Accepted { offer: offer(100, "one"), released: vec![] });
    assert!(coordinator.is_offered());
    assert_eq!(coordinator.current_offer(), Some(offer(100, "one")));
    assert!(coordinator.is_live(ResourceId { token: 100 }));
    assert_eq!(coordinator.answer(ResourceId { token: 100 }), None);
}

#[test]
fn await_offer_is_served_at_once_when_offered() {
    let mut coordinator = Coordinator::new();
    coordinator.submit_offer(description("one"), 100);
    assert_eq!(coordinator.await_offer(), AwaitStep::Ready(offer(100, "one")));
    assert_eq!(coordinator.await_offer(), AwaitStep::Ready(offer(100, "one")));
    assert_eq!(coordinator.waiting_count(), 0);
}

#[test]
fn await_offer_waits_while_the_channel_is_empty() {
    let mut coordinator = Coordinator::new();
    assert_eq!(coordinator.await_offer(), AwaitStep::Suspended(0));
    assert_eq!(coordinator.await_offer(), AwaitStep::Suspended(1));
    assert_eq!(coordinator.await_offer(), AwaitStep::Suspended(2));
    assert_eq!(coordinator.waiting_count(), 3);
    assert!(!coordinator.is_offered());
}

#[test]
fn submit_offer_releases_every_wait() {
    let mut coordinator = Coordinator::new();
    for _ in 0..5 {
        coordinator.await_offer();
    }
    let accepted = coordinator.submit_offer(description("late"), 9);
    assert_eq!(accepted.offer, offer(9, "late"));
    assert_eq!(accepted.released, vec![0, 1, 2, 3, 4]);
    assert_eq!(coordinator.waiting_count(), 0);
    assert_eq!(coordinator.await_offer(), AwaitStep::Ready(offer(9, "late")));
}

#[test]
fn a_wait_completes_with_the_next_offer_and_no_later_one() {
    let mut coordinator = Coordinator::new();
    let ticket = match coordinator.await_offer() {
        AwaitStep::Suspended(ticket) => ticket,
        AwaitStep::Ready(_) => panic!("no offer was submitted"),
    };
    let first = coordinator.submit_offer(description("first"), 1);
    assert!(first.released.contains(&ticket));
    assert_eq!(first.offer.sdp, description("first"));
    let second = coordinator.submit_offer(description("second"), 2);
    assert!(second.released.is_empty());
    let third = coordinator.submit_offer(description("third"), 3);
    assert!(third.released.is_empty());
}

#[test]
fn a_later_offer_supersedes_the_current_one() {
    let mut coordinator = Coordinator::new();
    coordinator.submit_offer(description("one"), 1);
    let accepted = coordinator.submit_offer(description("two"), 1);
    assert_eq!(accepted.offer, offer(2, "two"));
    assert_eq!(coordinator.current_offer(), Some(offer(2, "two")));
    assert_eq!(coordinator.await_offer(), AwaitStep::Ready(offer(2, "two")));
    assert!(coordinator.is_live(ResourceId { token: 1 }));
    assert!(coordinator.is_live(ResourceId { token: 2 }));
}

#[test]
fn cancel_wait_removes_one_wait_only() {
    let mut coordinator = Coordinator::new();
    coordinator.await_offer();
    coordinator.await_offer();
    coordinator.await_offer();
    assert!(coordinator.cancel_wait(1));
    assert_eq!(coordinator.waiting_count(), 2);
    assert!(!coordinator.cancel_wait(1));
    assert!(!coordinator.cancel_wait(77));
    assert_eq!(coordinator.waiting_count(), 2);
    let accepted = coordinator.submit_offer(description("o"), 0);
    assert_eq!(accepted.released, vec![0, 2]);
}

#[test]
fn cancel_wait_after_release_changes_nothing() {
    let mut coordinator = Coordinator::new();
    coordinator.await_offer();
    coordinator.submit_offer(description("o"), 5);
    assert!(!coordinator.cancel_wait(0));
    assert_eq!(coordinator.current_offer(), Some(offer(5, "o")));
    assert_eq!(coordinator.waiting_count(), 0);
}

#[test]
fn tickets_of_waiting_requests_differ() {
    let mut coordinator = Coordinator::new();
    let mut tickets = Vec::new();
    for round in 0..50 {
        match coordinator.await_offer() {
            AwaitStep::Suspended(ticket) => {
                assert!(!tickets.contains(&ticket));
                tickets.push(ticket);
            }
            AwaitStep::Ready(_) => panic!("no offer was submitted"),
        }
        if round % 7 == 3 {
            let gone = tickets.remove(0);
            assert!(coordinator.cancel_wait(gone));
        }
    }
    assert_eq!(coordinator.waiting_count(), tickets.len());
}

#[test]
fn successor_goes_round() {
    assert_eq!(successor(0), 1);
    assert_eq!(successor(41), 42);
    assert_eq!(successor(u128::MAX - 1), u128::MAX);
    assert_eq!(successor(u128::MAX), 0);
}

#[test]
fn register_subscriber_opens_a_session_with_an_empty_slot() {
    let mut coordinator = Coordinator::new();
    let id = coordinator.register_subscriber(17);
    assert_eq!(id, ResourceId { token: 17 });
    assert!(coordinator.is_live(id));
    assert_eq!(coordinator.answer(id), None);
    assert!(!coordinator.is_offered());
    assert_eq!(coordinator.waiting_count(), 0);
}

#[test]
fn registrations_yield_distinct_identifiers() {
    let mut coordinator = Coordinator::new();
    coordinator.submit_offer(description("o"), 3);
    let mut ids = Vec::new();
    for round in 0..100u128 {
        let id = coordinator.register_subscriber(round % 4);
        assert!(!ids.contains(&id));
        assert_ne!(id, ResourceId { token: 3 });
        ids.push(id);
    }
    for id in ids {
        assert!(coordinator.is_live(id));
    }
}

#[test]
fn submit_answer_files_an_answer_once() {
    let mut coordinator = Coordinator::new();
    let id = coordinator.register_subscriber(8);
    assert_eq!(coordinator.submit_answer(id, description("first")), Ok(()));
    assert_eq!(coordinator.answer(id), Some(description("first")));
    assert_eq!(coordinator.submit_answer(id, description("second")), Err(SignalError::Conflict));
    assert_eq!(coordinator.answer(id), Some(description("first")));
    assert_eq!(coordinator.submit_answer(id, description("first")), Err(SignalError::Conflict));
}

#[test]
fn submit_answer_refuses_an_unknown_session() {
    let mut coordinator = Coordinator::new();
    let unknown = ResourceId { token: 8 };
    assert_eq!(coordinator.submit_answer(unknown, description("a")), Err(SignalError::NotFound));
    assert_eq!(coordinator.answer(unknown), None);
    assert!(!coordinator.is_live(unknown));
}

#[test]
fn submit_answer_is_taken_under_the_identifier_of_the_offer() {
    let mut coordinator = Coordinator::new();
    let accepted = coordinator.submit_offer(description("offer"), 21);
    assert_eq!(coordinator.submit_answer(accepted.offer.id, description("answer")), Ok(()));
    assert_eq!(coordinator.answer(accepted.offer.id), Some(description("answer")));
    assert_eq!(coordinator.current_offer(), Some(offer(21, "offer")));
}

#[test]
fn release_ends_a_session() {
    let mut coordinator = Coordinator::new();
    let id = coordinator.register_subscriber(8);
    coordinator.submit_answer(id, description("a")).unwrap();
    assert!(coordinator.release(id));
    assert!(!coordinator.is_live(id));
    assert_eq!(coordinator.answer(id), None);
    assert_eq!(coordinator.submit_answer(id, description("b")), Err(SignalError::NotFound));
    assert!(!coordinator.release(id));
}

#[test]
fn release_of_the_offer_session_empties_the_channel() {
    let mut coordinator = Coordinator::new();
    let accepted = coordinator.submit_offer(description("offer"), 21);
    let other = coordinator.register_subscriber(30);
    assert!(coordinator.release(other));
    assert!(coordinator.is_offered());
    assert!(coordinator.release(accepted.offer.id));
    assert!(!coordinator.is_offered());
    assert_eq!(coordinator.current_offer(), None);
    assert_eq!(coordinator.await_offer(), AwaitStep::Suspended(0));
}

#[test]
fn release_of_a_superseded_offer_keeps_the_current_one() {
    let mut coordinator = Coordinator::new();
    let first = coordinator.submit_offer(description("one"), 1);
    coordinator.submit_offer(description("two"), 2);
    assert!(coordinator.release(first.offer.id));
    assert_eq!(coordinator.current_offer(), Some(offer(2, "two")));
}

#[test]
fn independent_coordinators_share_nothing() {
    let mut a = Coordinator::new();
    let mut b = Coordinator::new();
    a.submit_offer(description("a"), 1);
    assert_eq!(b.await_offer(), AwaitStep::Suspended(0));
    assert_eq!(a.await_offer(), AwaitStep::Ready(offer(1, "a")));
    assert!(!b.is_live(ResourceId { token: 1 }));
}
