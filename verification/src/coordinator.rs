//! The coordinator of the exchange: the one owner of the current offer,
//! of the waiting subscribers and of the answers.
//!
//! It is a plain value. The caller guards it with one lock and calls one
//! operation at a time; a request that has to wait keeps its ticket and
//! waits outside the lock, until the submission of an offer hands its
//! ticket back among the released ones.

use crate::error::SignalError;
use crate::model::{Await, Offer, State};
use crate::registry::{
    first_free, is_gap, lemma_gap_is_first_free, lemma_live_run_is_bounded, slot_text, step,
    Registry,
};
use crate::resource::ResourceId;
use crate::sdp::description::SessionDescription;
use vstd::prelude::*;

verus! {

/// The current offer of a publisher: the identifier of its session and
/// its session description.
#[derive(Debug, PartialEq, Eq)]
pub struct PendingOffer {
    pub id: ResourceId,
    pub sdp: SessionDescription,
}

impl View for PendingOffer {
    type V = Offer;

    open spec fn view(&self) -> Offer {
        Offer { id: self.id.token, sdp: self.sdp@ }
    }
}

impl Clone for PendingOffer {
    fn clone(&self) -> (copy: Self)
        ensures
            copy@ == self@,
    {
        PendingOffer { id: self.id, sdp: self.sdp.clone() }
    }
}

/// What a subscriber gets when it asks for the offer.
#[derive(Debug, PartialEq, Eq)]
pub enum AwaitStep {
    /// The current offer, at once.
    Ready(PendingOffer),
    /// No offer yet: the ticket under which the request waits.
    Suspended(u128),
}

impl View for AwaitStep {
    type V = Await;

    open spec fn view(&self) -> Await {
        match self {
            AwaitStep::Ready(offer) => Await::Ready(offer@),
            AwaitStep::Suspended(ticket) => Await::Suspended(*ticket),
        }
    }
}

/// What the submission of an offer gives back: the offer as it is stored,
/// and the tickets of the waits that it ends. Each of them completes with
/// a copy of this offer.
#[derive(Debug, PartialEq, Eq)]
pub struct Accepted {
    pub offer: PendingOffer,
    pub released: Vec<u128>,
}

/// The offer that the channel holds, as the state machine sees it.
pub open spec fn offer_view(offer: Option<PendingOffer>) -> Option<Offer> {
    match offer {
        Some(offer) => Some(offer@),
        None => None,
    }
}

/// A ticket that is not among those waiting joins them as one more.
pub proof fn lemma_ticket_joins(waiting: Seq<u128>, ticket: u128)
    requires
        waiting.no_duplicates(),
        !waiting.to_set().contains(ticket),
    ensures
        waiting.push(ticket).no_duplicates(),
        waiting.push(ticket).to_set() == waiting.to_set().insert(ticket),
{
    let more = waiting.push(ticket);
    assert forall|i: int, j: int| 0 <= i < more.len() && 0 <= j < more.len() && i != j implies more[i]
        != more[j] by {
        if i < waiting.len() {
            assert(waiting.to_set().contains(waiting[i]));
        }
        if j < waiting.len() {
            assert(waiting.to_set().contains(waiting[j]));
        }
    }
    assert(more.to_set() =~= waiting.to_set().insert(ticket)) by {
        assert forall|t: u128| more.to_set().contains(t) implies waiting.to_set().insert(
            ticket,
        ).contains(t) by {
            let i = choose|i: int| 0 <= i < more.len() && more[i] == t;
            if i < waiting.len() {
                assert(waiting[i] == t);
            }
        }
        assert forall|t: u128| waiting.to_set().insert(ticket).contains(
            t,
        ) implies more.to_set().contains(t) by {
            if t == ticket {
                assert(more[waiting.len() as int] == t);
            } else {
                let i = choose|i: int| 0 <= i < waiting.len() && waiting[i] == t;
                assert(more[i] == t);
            }
        }
    }
}

/// The ticket at a place leaves those waiting, and no other does.
pub proof fn lemma_ticket_leaves(waiting: Seq<u128>, at: int)
    requires
        waiting.no_duplicates(),
        0 <= at < waiting.len(),
    ensures
        waiting.remove(at).no_duplicates(),
        waiting.remove(at).to_set() == waiting.to_set().remove(waiting[at]),
{
    let fewer = waiting.remove(at);
    let ticket = waiting[at];
    assert forall|i: int| 0 <= i < fewer.len() implies fewer[i] == waiting[if i < at {
        i
    } else {
        i + 1
    }] by {}
    assert(fewer.to_set() =~= waiting.to_set().remove(ticket)) by {
        assert forall|t: u128| fewer.to_set().contains(t) implies waiting.to_set().remove(
            ticket,
        ).contains(t) by {
            let i = choose|i: int| 0 <= i < fewer.len() && fewer[i] == t;
            let j = if i < at {
                i
            } else {
                i + 1
            };
            assert(waiting[j] == t);
        }
        assert forall|t: u128| waiting.to_set().remove(ticket).contains(
            t,
        ) implies fewer.to_set().contains(t) by {
            let j = choose|j: int| 0 <= j < waiting.len() && waiting[j] == t;
            let i = if j < at {
                j
            } else {
                j - 1
            };
            assert(fewer[i] == t);
        }
    }
}

/// Those waiting are no more than a machine can hold.
pub proof fn lemma_waiting_bounded(waiting: &Vec<u128>)
    ensures
        waiting@.to_set().finite(),
        waiting@.to_set().len() <= usize::MAX,
{
    vstd::seq_lib::seq_to_set_is_finite(waiting@);
    waiting@.lemma_cardinality_of_set();
    assert(waiting@.len() == waiting.len());
}

/// The token after `token`, going round from the highest to zero.
pub fn successor(token: u128) -> (after: u128)
    ensures
        after == step(token, 1),
{
    if token == u128::MAX {
        0
    } else {
        token + 1
    }
}

/// The first number at or after `from` that is not among those waiting.
fn free_ticket(waiting: &Vec<u128>, from: u128) -> (ticket: u128)
    ensures
        ticket == first_free(waiting@.to_set(), from),
        !waiting@.to_set().contains(ticket),
{
    let ghost live = waiting@.to_set();
    proof {
        lemma_waiting_bounded(waiting);
        assert(step(from, 0) == from);
    }
    let mut candidate: u128 = from;
    let ghost mut k: nat = 0;
    while holds(waiting, candidate)
        invariant
            live == waiting@.to_set(),
            live.finite(),
            live.len() <= usize::MAX,
            candidate == step(from, k),
            k <= live.len(),
            forall|j: nat| j < k ==> live.contains(#[trigger] step(from, j)),
        decreases live.len() - k,
    {
        proof {
            lemma_live_run_is_bounded(live, from, k + 1);
        }
        candidate = successor(candidate);
        proof {
            k = k + 1;
        }
    }
    proof {
        assert(is_gap(live, from, k));
        lemma_gap_is_first_free(live, from, k);
    }
    candidate
}

/// Whether `ticket` is among those waiting.
fn holds(waiting: &Vec<u128>, ticket: u128) -> (found: bool)
    ensures
        found == waiting@.to_set().contains(ticket),
{
    let mut i: usize = 0;
    while i < waiting.len()
        invariant
            0 <= i <= waiting@.len(),
            forall|j: int| 0 <= j < i ==> waiting@[j] != ticket,
        decreases waiting@.len() - i,
    {
        if waiting[i] == ticket {
            assert(waiting@.contains(ticket));
            return true;
        }
        i = i + 1;
    }
    assert(!waiting@.contains(ticket));
    false
}

/// The state of the exchange.
pub struct Coordinator {
    offer: Option<PendingOffer>,
    waiting: Vec<u128>,
    next: u128,
    registry: Registry,
}

impl View for Coordinator {
    type V = State;

    closed spec fn view(&self) -> State {
        State {
            offer: offer_view(self.offer),
            waiting: self.waiting@.to_set(),
            next: self.next,
            slots: self.registry@,
        }
    }
}

impl Coordinator {
    #[verifier::type_invariant]
    spec fn inv(self) -> bool {
        &&& self@.wf()
        &&& self.waiting@.no_duplicates()
    }

    /// A coordinator at the start of the exchange.
    pub fn new() -> (coordinator: Coordinator)
        ensures
            coordinator@ == State::initial(),
    {
        let waiting: Vec<u128> = Vec::new();
        proof {
            lemma_waiting_bounded(&waiting);
            assert(waiting@.to_set() =~= Set::<u128>::empty());
        }
        Coordinator { offer: None, waiting, next: 0, registry: Registry::new() }
    }

    /// Takes the state out, leaving that of the start in its place.
    fn take(&mut self) -> (taken: Coordinator)
        ensures
            taken == *old(self),
            taken@.wf(),
            taken.waiting@.no_duplicates(),
    {
        let mut taken = Coordinator::new();
        std::mem::swap(&mut taken, self);
        proof {
            use_type_invariant(&taken);
        }
        taken
    }

    /// Stores `sdp` as the current offer, under a fresh identifier found
    /// from `seed`, and ends every wait: the tickets that waited come back,
    /// each to be completed with a copy of the offer. An offer that was
    /// current before is superseded; its session stays live.
    pub fn submit_offer(&mut self, sdp: SessionDescription, seed: u128) -> (accepted: Accepted)
        ensures
            final(self)@ == old(self)@.submit_offer(sdp@, seed),
            accepted.offer@ == old(self)@.next_offer(sdp@, seed),
            accepted.released@.to_set() == old(self)@.waiting,
            accepted.released@.no_duplicates(),
            !old(self)@.slots.contains_key(accepted.offer.id.token),
            old(self)@.wf(),
            final(self)@.wf(),
    {
        let Coordinator { offer: _, waiting, next, mut registry } = self.take();
        let id = registry.allocate(seed);
        proof {
            registry.lemma_bounded();
        }
        let offer = PendingOffer { id, sdp };
        let stored = offer.clone();
        let empty: Vec<u128> = Vec::new();
        proof {
            lemma_waiting_bounded(&empty);
            assert(empty@.to_set() =~= Set::<u128>::empty());
        }
        *self = Coordinator { offer: Some(stored), waiting: empty, next, registry };
        Accepted { offer, released: waiting }
    }

    /// Asks for the offer. Where the channel holds one, a copy of it comes
    /// back at once and nothing changes. Where it holds none, the request
    /// is registered as waiting and gets its ticket: the next submission of
    /// an offer releases it.
    pub fn await_offer(&mut self) -> (step: AwaitStep)
        ensures
            final(self)@ == old(self)@.await_offer(),
            step@ == old(self)@.await_outcome(),
            step matches AwaitStep::Suspended(ticket) ==> !old(self)@.waiting.contains(ticket),
            old(self)@.wf(),
            final(self)@.wf(),
    {
        let Coordinator { offer, mut waiting, next, registry } = self.take();
        match offer {
            Some(current) => {
                let copy = current.clone();
                *self = Coordinator { offer: Some(current), waiting, next, registry };
                AwaitStep::Ready(copy)
            },
            None => {
                let ticket: u128 = free_ticket(&waiting, next);
                proof {
                    lemma_ticket_joins(waiting@, ticket);
                }
                waiting.push(ticket);
                proof {
                    lemma_waiting_bounded(&waiting);
                }
                *self = Coordinator { offer: None, waiting, next: successor(ticket), registry };
                AwaitStep::Suspended(ticket)
            },
        }
    }

    /// Gives up the wait under `ticket`, and says whether it was waiting.
    /// A ticket that waits no more, or never did, changes nothing; no
    /// other wait is touched.
    pub fn cancel_wait(&mut self, ticket: u128) -> (was_waiting: bool)
        ensures
            final(self)@ == old(self)@.cancel_wait(ticket),
            was_waiting == old(self)@.waiting.contains(ticket),
            old(self)@.wf(),
            final(self)@.wf(),
    {
        let Coordinator { offer, mut waiting, next, registry } = self.take();
        let ghost before = waiting@;
        let mut i: usize = 0;
        let mut found: bool = false;
        while i < waiting.len()
            invariant_except_break
                !found,
                forall|j: int| 0 <= j < i ==> before[j] != ticket,
            invariant
                waiting@ == before,
                0 <= i <= before.len(),
            ensures
                waiting@ == before,
                0 <= i <= before.len(),
                found ==> i < before.len() && before[i as int] == ticket,
                !found ==> forall|j: int| 0 <= j < before.len() ==> before[j] != ticket,
            decreases before.len() - i,
        {
            if waiting[i] == ticket {
                found = true;
                break ;
            }
            i = i + 1;
        }
        if found {
            proof {
                lemma_ticket_leaves(before, i as int);
            }
            waiting.remove(i);
        } else {
            assert(!before.to_set().contains(ticket));
            assert(before.to_set().remove(ticket) =~= before.to_set());
        }
        proof {
            lemma_waiting_bounded(&waiting);
            assert(waiting@.to_set() == before.to_set().remove(ticket));
            if offer is Some {
                assert(waiting@.to_set() =~= Set::<u128>::empty());
            }
        }
        *self = Coordinator { offer, waiting, next, registry };
        found
    }

    /// Opens the session of a new subscriber, under a fresh identifier
    /// found from `seed` and with an empty answer slot.
    pub fn register_subscriber(&mut self, seed: u128) -> (id: ResourceId)
        ensures
            final(self)@ == old(self)@.register_subscriber(seed),
            id.token == old(self)@.next_subscriber(seed),
            !old(self)@.slots.contains_key(id.token),
            old(self)@.wf(),
            final(self)@.wf(),
    {
        let Coordinator { offer, waiting, next, mut registry } = self.take();
        let id = registry.allocate(seed);
        proof {
            registry.lemma_bounded();
        }
        *self = Coordinator { offer, waiting, next, registry };
        id
    }

    /// Files the answer of a subscriber under the identifier of a session,
    /// once. Where no live session has the identifier the answer is
    /// refused with `NotFound`; where the session has its answer already,
    /// with `Conflict`, and the answer filed first stays as it is.
    pub fn submit_answer(&mut self, id: ResourceId, answer: SessionDescription) -> (r: Result<
        (),
        SignalError,
    >)
        ensures
            final(self)@ == old(self)@.submit_answer(id.token, answer@),
            r == old(self)@.answer_outcome(id.token, answer@),
            old(self)@.wf(),
            final(self)@.wf(),
    {
        let Coordinator { offer, waiting, next, mut registry } = self.take();
        let r = registry.file(id, answer);
        proof {
            registry.lemma_bounded();
        }
        *self = Coordinator { offer, waiting, next, registry };
        r
    }

    /// A copy of the answer filed under an identifier, if the session is
    /// live and has one.
    pub fn answer(&self, id: ResourceId) -> (answer: Option<SessionDescription>)
        ensures
            slot_text(answer) == self@.answer(id.token),
    {
        self.registry.answer(id)
    }

    /// Whether a session is live.
    pub fn is_live(&self, id: ResourceId) -> (live: bool)
        ensures
            live == self@.slots.contains_key(id.token),
    {
        self.registry.is_live(id)
    }

    /// Ends a session and says whether it was live. Its answer slot is
    /// gone; where it was the session of the current offer, the channel
    /// is empty again.
    pub fn release(&mut self, id: ResourceId) -> (was_live: bool)
        ensures
            final(self)@ == old(self)@.release(id.token),
            was_live == old(self)@.slots.contains_key(id.token),
            old(self)@.wf(),
            final(self)@.wf(),
    {
        let Coordinator { offer, waiting, next, mut registry } = self.take();
        let was_live = registry.release(id);
        proof {
            registry.lemma_bounded();
        }
        let kept = match offer {
            Some(current) => if current.id.token == id.token {
                None
            } else {
                Some(current)
            },
            None => None,
        };
        *self = Coordinator { offer: kept, waiting, next, registry };
        was_live
    }

    /// Whether the channel holds an offer.
    pub fn is_offered(&self) -> (offered: bool)
        ensures
            offered == self@.offered(),
            self@.wf(),
    {
        proof {
            use_type_invariant(self);
        }
        self.offer.is_some()
    }

    /// A copy of the current offer, if the channel holds one.
    pub fn current_offer(&self) -> (offer: Option<PendingOffer>)
        ensures
            offer_view(offer) == self@.offer,
    {
        match &self.offer {
            Some(current) => Some(current.clone()),
            None => None,
        }
    }

    /// How many requests wait.
    pub fn waiting_count(&self) -> (n: usize)
        ensures
            n == self@.waiting.len(),
    {
        proof {
            use_type_invariant(self);
            self.waiting@.unique_seq_to_set();
        }
        self.waiting.len()
    }
}

} // verus!
