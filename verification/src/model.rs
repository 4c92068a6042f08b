//! The exchange as a state machine, in specification.
//!
//! A channel is empty until a publisher submits an offer, and offered from
//! then on; a later offer takes the place of the one before it. A
//! subscriber that asks while the channel is empty waits, under a ticket,
//! until the next offer releases every waiting ticket at once. A ticket is
//! a number that no other waiting request has: the first free one at or
//! after the number that follows the ticket handed out last.

use crate::error::SignalError;
use crate::registry::{answer_of, file_answer, first_free, step, Slots};
use vstd::prelude::*;

verus! {

/// An offer as the state machine sees it: the token of the publisher's
/// session and the text of its description.
pub struct Offer {
    pub id: u128,
    pub sdp: Seq<char>,
}

/// What a subscriber gets when it asks for the offer.
pub enum Await {
    /// The current offer, at once.
    Ready(Offer),
    /// No offer yet: the ticket under which the subscriber waits.
    Suspended(u128),
}

/// The state of the exchange.
pub struct State {
    /// The current offer, if the channel is offered.
    pub offer: Option<Offer>,
    /// The tickets of the subscribers that wait.
    pub waiting: Set<u128>,
    /// The number from which the next ticket is sought.
    pub next: u128,
    /// The live sessions, each with its answer slot.
    pub slots: Slots,
}

impl State {
    /// The state at the start: an empty channel, nobody waiting, no session.
    pub open spec fn initial() -> State {
        State { offer: None, waiting: Set::empty(), next: 0, slots: Map::empty() }
    }

    /// What holds of every state that the exchange can reach. Nobody waits
    /// while there is an offer; the session of the current offer is live;
    /// the sessions and the waiting requests are no more than a machine
    /// can hold.
    pub open spec fn wf(self) -> bool {
        &&& self.slots.dom().finite()
        &&& self.slots.dom().len() <= usize::MAX
        &&& self.waiting.finite()
        &&& self.waiting.len() <= usize::MAX
        &&& self.offer is Some ==> self.waiting == Set::<u128>::empty()
        &&& self.offer is Some ==> self.slots.contains_key(self.offer->0.id)
    }

    /// Whether the channel holds an offer.
    pub open spec fn offered(self) -> bool {
        self.offer is Some
    }

    /// The offer that a submission with this text and seed stores.
    pub open spec fn next_offer(self, sdp: Seq<char>, seed: u128) -> Offer {
        Offer { id: first_free(self.slots.dom(), seed), sdp }
    }

    /// The state after an offer was submitted: it is the current offer, its
    /// session is live with an empty answer slot, and nobody waits any more.
    pub open spec fn submit_offer(self, sdp: Seq<char>, seed: u128) -> State {
        let offer = self.next_offer(sdp, seed);
        State {
            offer: Some(offer),
            waiting: Set::empty(),
            next: self.next,
            slots: self.slots.insert(offer.id, None),
        }
    }

    /// The ticket that the next waiting request gets.
    pub open spec fn next_ticket(self) -> u128 {
        first_free(self.waiting, self.next)
    }

    /// What a subscriber gets that asks for the offer in this state.
    pub open spec fn await_outcome(self) -> Await {
        match self.offer {
            Some(offer) => Await::Ready(offer),
            None => Await::Suspended(self.next_ticket()),
        }
    }

    /// The state after a subscriber asked for the offer: unchanged where
    /// there is one, else with one more waiting ticket.
    pub open spec fn await_offer(self) -> State {
        match self.offer {
            Some(_) => self,
            None => State {
                waiting: self.waiting.insert(self.next_ticket()),
                next: step(self.next_ticket(), 1),
                ..self
            },
        }
    }

    /// The state after the wait under `ticket` was given up.
    pub open spec fn cancel_wait(self, ticket: u128) -> State {
        State { waiting: self.waiting.remove(ticket), ..self }
    }

    /// The token that a new subscriber gets for this seed.
    pub open spec fn next_subscriber(self, seed: u128) -> u128 {
        first_free(self.slots.dom(), seed)
    }

    /// The state after a subscriber was registered: its session is live
    /// with an empty answer slot.
    pub open spec fn register_subscriber(self, seed: u128) -> State {
        State { slots: self.slots.insert(self.next_subscriber(seed), None), ..self }
    }

    /// Whether an answer under `token` is taken, or why not.
    pub open spec fn answer_outcome(self, token: u128, answer: Seq<char>) -> Result<
        (),
        SignalError,
    > {
        file_answer(self.slots, token, answer).1
    }

    /// The state after an answer was submitted under `token`.
    pub open spec fn submit_answer(self, token: u128, answer: Seq<char>) -> State {
        State { slots: file_answer(self.slots, token, answer).0, ..self }
    }

    /// The answer filed under `token`, if any.
    pub open spec fn answer(self, token: u128) -> Option<Seq<char>> {
        answer_of(self.slots, token)
    }

    /// The state after the session under `token` ended: it is live no
    /// more, and where it was the session of the current offer, the
    /// channel is empty again.
    pub open spec fn release(self, token: u128) -> State {
        State {
            offer: if self.offer is Some && self.offer->0.id == token {
                None
            } else {
                self.offer
            },
            slots: self.slots.remove(token),
            ..self
        }
    }
}

} // verus!
