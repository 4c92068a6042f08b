//! The decisions of the HTTP surface.
//!
//! Each function takes what a request brought and the coordinator, and
//! gives back the reply together with what the caller still has to do:
//! wake the released waits, keep a request waiting under its ticket, tell
//! the media pipeline. The caller holds the lock on the coordinator for
//! the length of one call, and draws each seed at random.

use crate::coordinator::{Accepted, AwaitStep, Coordinator};
use crate::error::SignalError;
use crate::model::State;
use crate::reply::{
    created, failure, failure_reply, no_content, no_content_reply, offer_reply, refusal,
    refusal_reply, Reply,
};
use crate::resource::{id_of_text, ResourceId};
use crate::sdp::description::{wire, SessionDescription};
use crate::sdp::grammar::decode;
use vstd::prelude::*;

verus! {

/// What becomes of an offer that a publisher posts.
#[derive(Debug, PartialEq, Eq)]
pub enum PublishStep {
    /// The body is no session description.
    Rejected(Reply),
    /// The offer is the current one. The waits under the released tickets
    /// complete with a copy of it, and the pipeline hears of the publisher.
    Stored { reply: Reply, accepted: Accepted },
}

/// What becomes of a subscriber's request for the offer.
#[derive(Debug, PartialEq, Eq)]
pub enum SubscribeStep {
    /// The request brought a body, which only a publisher may.
    Refused(Reply),
    /// The subscriber is registered and there is an offer: the reply hands
    /// it out.
    Served { subscriber: ResourceId, reply: Reply },
    /// The subscriber is registered and there is no offer yet: the request
    /// waits under the ticket.
    Suspended { subscriber: ResourceId, ticket: u128 },
}

/// What becomes of an answer that a subscriber patches.
#[derive(Debug, PartialEq, Eq)]
pub enum PatchStep {
    /// The answer was not taken.
    Rejected(Reply),
    /// The answer is filed under the session, and goes to the pipeline.
    Filed { id: ResourceId, answer: SessionDescription, reply: Reply },
}

/// Takes the offer that a publisher posts. A body that is a session
/// description becomes the current offer, under a fresh identifier found
/// from `seed`; any other body is refused and nothing changes.
pub fn publish(form: String, seed: u128, coordinator: &mut Coordinator) -> (step: PublishStep)
    ensures
        match decode(wire(form@)) {
            Err(e) => {
                &&& step matches PublishStep::Rejected(reply)
                &&& reply@ == failure(SignalError::Validation(e))
                &&& final(coordinator)@ == old(coordinator)@
            },
            Ok(_) => {
                &&& step matches PublishStep::Stored { reply, accepted }
                &&& reply@ == created(old(coordinator)@.next_offer(form@, seed))
                &&& accepted.offer@ == old(coordinator)@.next_offer(form@, seed)
                &&& accepted.released@.to_set() == old(coordinator)@.waiting
                &&& accepted.released@.no_duplicates()
                &&& final(coordinator)@ == old(coordinator)@.submit_offer(form@, seed)
            },
        },
{
    let ghost text = form@;
    match SessionDescription::parse(form) {
        Err(e) => {
            PublishStep::Rejected(failure_reply(SignalError::Validation(e)))
        },
        Ok(sdp) => {
            let accepted = coordinator.submit_offer(sdp, seed);
            let reply = offer_reply(&accepted.offer);
            PublishStep::Stored { reply, accepted }
        },
    }
}

/// The state after a subscriber's request without a body: the subscriber
/// is registered, and waits where there is no offer.
pub open spec fn subscribed(state: State, seed: u128) -> State {
    state.register_subscriber(seed).await_offer()
}

/// Takes a subscriber's request for the offer. A request with a body is
/// refused and nothing changes. Else the subscriber's session is opened
/// under a fresh identifier found from `seed`, and the request is served
/// with the current offer, or waits for the next one.
pub fn subscribe(form: &str, seed: u128, coordinator: &mut Coordinator) -> (step: SubscribeStep)
    ensures
        form@.len() > 0 ==> {
            &&& step matches SubscribeStep::Refused(reply)
            &&& reply@ == refusal()
            &&& final(coordinator)@ == old(coordinator)@
        },
        form@.len() == 0 ==> {
            &&& final(coordinator)@ == subscribed(old(coordinator)@, seed)
            &&& match old(coordinator)@.offer {
                Some(offer) => {
                    &&& step matches SubscribeStep::Served { subscriber, reply }
                    &&& subscriber.token == old(coordinator)@.next_subscriber(seed)
                    &&& reply@ == created(offer)
                },
                None => {
                    &&& step matches SubscribeStep::Suspended { subscriber, ticket }
                    &&& subscriber.token == old(coordinator)@.next_subscriber(seed)
                    &&& ticket == old(coordinator)@.next_ticket()
                    &&& !old(coordinator)@.waiting.contains(ticket)
                },
            }
        },
{
    if !form.is_empty() {
        return SubscribeStep::Refused(refusal_reply());
    }
    let subscriber = coordinator.register_subscriber(seed);
    match coordinator.await_offer() {
        AwaitStep::Ready(offer) => SubscribeStep::Served { subscriber, reply: offer_reply(&offer) },
        AwaitStep::Suspended(ticket) => SubscribeStep::Suspended { subscriber, ticket },
    }
}

/// Ends a wait at its deadline. Where the request still waited, the wait
/// is given up and the reply tells of the timeout; where an offer released
/// it in the meantime, nothing changes and there is no reply to give: the
/// request has its offer.
pub fn expire(ticket: u128, coordinator: &mut Coordinator) -> (reply: Option<Reply>)
    ensures
        final(coordinator)@ == old(coordinator)@.cancel_wait(ticket),
        match reply {
            Some(reply) => old(coordinator)@.waiting.contains(ticket) && reply@ == failure(
                SignalError::Timeout,
            ),
            None => !old(coordinator)@.waiting.contains(ticket) && final(coordinator)@ == old(
                coordinator,
            )@,
        },
{
    if coordinator.cancel_wait(ticket) {
        Some(failure_reply(SignalError::Timeout))
    } else {
        assert(old(coordinator)@.waiting.remove(ticket) =~= old(coordinator)@.waiting);
        None
    }
}

/// Takes back the registration of a subscriber of which the pipeline
/// could not be told: its session ends, its wait is given up, and the
/// reply tells of the pipeline's failure.
pub fn abandon(subscriber: ResourceId, ticket: Option<u128>, coordinator: &mut Coordinator) -> (reply:
    Reply)
    ensures
        final(coordinator)@ == match ticket {
            Some(ticket) => old(coordinator)@.cancel_wait(ticket).release(subscriber.token),
            None => old(coordinator)@.release(subscriber.token),
        },
        reply@ == failure(SignalError::Upstream),
{
    match ticket {
        Some(ticket) => {
            coordinator.cancel_wait(ticket);
        },
        None => {},
    }
    coordinator.release(subscriber);
    failure_reply(SignalError::Upstream)
}

/// What an answer under `path` comes to in a state, the answer being a
/// session description: the text names no identifier, or no live session,
/// or a session that has its answer, or the answer is filed.
pub open spec fn patch_outcome(state: State, path: Seq<char>, answer: Seq<char>) -> Result<
    (),
    SignalError,
> {
    match id_of_text(path) {
        None => Err(SignalError::NotFound),
        Some(id) => state.answer_outcome(id.token, answer),
    }
}

/// Takes the answer that a subscriber patches to the session named by
/// `path`. A body that is no session description is refused first; then a
/// path that names no live session; then a session that has its answer.
/// Only an answer that is filed changes anything.
pub fn patch(form: String, path: &str, coordinator: &mut Coordinator) -> (step: PatchStep)
    ensures
        match decode(wire(form@)) {
            Err(e) => {
                &&& step matches PatchStep::Rejected(reply)
                &&& reply@ == failure(SignalError::Validation(e))
                &&& final(coordinator)@ == old(coordinator)@
            },
            Ok(_) => match patch_outcome(old(coordinator)@, path@, form@) {
                Err(e) => {
                    &&& step matches PatchStep::Rejected(reply)
                    &&& reply@ == failure(e)
                    &&& final(coordinator)@ == old(coordinator)@
                },
                Ok(_) => {
                    &&& step matches PatchStep::Filed { id, answer, reply }
                    &&& id_of_text(path@) == Some(id)
                    &&& answer@ == form@
                    &&& reply@ == no_content()
                    &&& final(coordinator)@ == old(coordinator)@.submit_answer(id.token, form@)
                    &&& final(coordinator)@.answer(id.token) == Some(form@)
                },
            },
        },
{
    let sdp = match SessionDescription::parse(form) {
        Err(e) => {
            return PatchStep::Rejected(failure_reply(SignalError::Validation(e)));
        },
        Ok(sdp) => sdp,
    };
    let id = match ResourceId::from_text(path) {
        None => {
            return PatchStep::Rejected(failure_reply(SignalError::NotFound));
        },
        Some(id) => id,
    };
    let answer = sdp.clone();
    match coordinator.submit_answer(id, sdp) {
        Err(e) => PatchStep::Rejected(failure_reply(e)),
        Ok(_) => PatchStep::Filed { id, answer, reply: no_content_reply() },
    }
}

} // verus!
