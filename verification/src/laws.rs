//! What holds of the exchange over several operations.

use crate::error::SignalError;
use crate::model::{Await, State};
use crate::registry::{first_free, lemma_first_free_is_free, lemma_free_seed};
use crate::reply::created;
use crate::resource::{hex_text, lemma_text_round_trip, ResourceId};
use crate::routes::{patch_outcome, subscribed};
use vstd::prelude::*;

verus! {

/// An offer to be submitted: the text of its description, and the seed of
/// its identifier.
pub struct Submission {
    pub sdp: Seq<char>,
    pub seed: u128,
}

/// Whether a state has room for `more` sessions.
pub open spec fn roomy(state: State, more: nat) -> bool {
    state.slots.dom().len() + more <= usize::MAX
}

/// The identifier found for a new session is that of no live session.
pub proof fn lemma_fresh_identifier(state: State, seed: u128)
    requires
        state.wf(),
    ensures
        !state.slots.contains_key(first_free(state.slots.dom(), seed)),
        !state.slots.contains_key(seed) ==> first_free(state.slots.dom(), seed) == seed,
{
    lemma_first_free_is_free(state.slots.dom(), seed);
    if !state.slots.contains_key(seed) {
        lemma_free_seed(state.slots.dom(), seed);
    }
}

/// The submission of an offer leads from a reachable state to a reachable
/// one, in which the channel is offered.
pub proof fn lemma_submit_offer_keeps_wf(state: State, sdp: Seq<char>, seed: u128)
    requires
        state.wf(),
        roomy(state, 1),
    ensures
        state.submit_offer(sdp, seed).wf(),
        state.submit_offer(sdp, seed).offer == Some(state.next_offer(sdp, seed)),
        state.submit_offer(sdp, seed).slots.dom().len() == state.slots.dom().len() + 1,
{
    lemma_fresh_identifier(state, seed);
}

/// A registration leads from a reachable state to a reachable one.
pub proof fn lemma_register_keeps_wf(state: State, seed: u128)
    requires
        state.wf(),
        roomy(state, 1),
    ensures
        state.register_subscriber(seed).wf(),
        state.register_subscriber(seed).slots.dom().len() == state.slots.dom().len() + 1,
        state.register_subscriber(seed).offer == state.offer,
        state.register_subscriber(seed).waiting == state.waiting,
{
    lemma_fresh_identifier(state, seed);
}

/// Asking for the offer, giving up a wait, answering and ending a session
/// lead from a reachable state to a reachable one.
pub proof fn lemma_steps_keep_wf(state: State, ticket: u128, token: u128, answer: Seq<char>)
    requires
        state.wf(),
    ensures
        state.waiting.len() < usize::MAX ==> state.await_offer().wf(),
        state.cancel_wait(ticket).wf(),
        state.cancel_wait(ticket).waiting.len() <= state.waiting.len(),
        state.submit_answer(token, answer).wf(),
        state.submit_answer(token, answer).slots.dom() == state.slots.dom(),
        state.release(token).wf(),
        state.release(token).slots.dom().len() <= state.slots.dom().len(),
{
    lemma_first_free_is_free(state.waiting, state.next);
    if state.offer is Some {
        assert(state.waiting.remove(ticket) =~= Set::<u128>::empty());
    }
    assert(state.submit_answer(token, answer).slots.dom() =~= state.slots.dom());
}

/// Every wait that was registered before an offer is submitted completes
/// with that offer: the submission releases all waiting tickets, none of
/// them waits after it, and the channel they waited on was empty, so none
/// of them can have seen an older offer.
pub proof fn lemma_offer_releases_every_wait(
    state: State,
    sdp: Seq<char>,
    seed: u128,
    ticket: u128,
)
    requires
        state.wf(),
        state.waiting.contains(ticket),
    ensures
        state.offer is None,
        state.submit_offer(sdp, seed).offer == Some(state.next_offer(sdp, seed)),
        state.next_offer(sdp, seed).sdp == sdp,
        !state.submit_offer(sdp, seed).waiting.contains(ticket),
{
}

/// A request that asks after an offer was submitted is served at once with
/// that offer, and changes nothing.
pub proof fn lemma_await_after_offer_is_served(state: State, sdp: Seq<char>, seed: u128)
    ensures
        state.submit_offer(sdp, seed).await_outcome() == Await::Ready(
            state.next_offer(sdp, seed),
        ),
        state.submit_offer(sdp, seed).await_offer() == state.submit_offer(sdp, seed),
{
}

/// A request that asks while the channel is empty waits under a ticket
/// that no other waiting request has, and no wait but its own is added.
pub proof fn lemma_await_on_empty_waits(state: State)
    requires
        state.wf(),
        state.offer is None,
    ensures
        state.await_outcome() == Await::Suspended(state.next_ticket()),
        !state.waiting.contains(state.next_ticket()),
        state.await_offer().waiting == state.waiting.insert(state.next_ticket()),
        state.await_offer().offer is None,
        state.await_offer().slots == state.slots,
{
    lemma_first_free_is_free(state.waiting, state.next);
}

/// Giving up a wait removes that wait and no other, and a second time
/// changes nothing.
pub proof fn lemma_cancel_touches_one_wait(state: State, ticket: u128, other: u128)
    requires
        other != ticket,
    ensures
        state.cancel_wait(ticket).waiting.contains(other) == state.waiting.contains(other),
        !state.cancel_wait(ticket).waiting.contains(ticket),
        state.cancel_wait(ticket).cancel_wait(ticket) == state.cancel_wait(ticket),
        state.cancel_wait(ticket).offer == state.offer,
        state.cancel_wait(ticket).slots == state.slots,
{
    assert(state.waiting.remove(ticket).remove(ticket) =~= state.waiting.remove(ticket));
}

/// One operation on the exchange.
pub enum Step {
    /// An offer is submitted.
    Submit(Submission),
    /// A subscriber asks for the offer.
    Await,
    /// The wait under a ticket is given up.
    Cancel(u128),
    /// A subscriber is registered, with this seed.
    Register(u128),
    /// An answer is submitted under a token.
    Answer(u128, Seq<char>),
    /// The session under a token ends.
    Release(u128),
}

/// The state after one operation.
pub open spec fn apply(state: State, step: Step) -> State {
    match step {
        Step::Submit(submission) => state.submit_offer(submission.sdp, submission.seed),
        Step::Await => state.await_offer(),
        Step::Cancel(ticket) => state.cancel_wait(ticket),
        Step::Register(seed) => state.register_subscriber(seed),
        Step::Answer(token, answer) => state.submit_answer(token, answer),
        Step::Release(token) => state.release(token),
    }
}

/// The state after a run of operations, one after the other.
pub open spec fn run(state: State, steps: Seq<Step>) -> State
    decreases steps.len(),
{
    if steps.len() == 0 {
        state
    } else {
        apply(run(state, steps.drop_last()), steps.last())
    }
}

/// Whether a state has room for `more` sessions and `more` waiting requests.
pub open spec fn spacious(state: State, more: nat) -> bool {
    &&& state.slots.dom().len() + more <= usize::MAX
    &&& state.waiting.len() + more <= usize::MAX
}

/// One operation leads from a reachable state to a reachable one, and
/// takes the room of one session and one waiting request at most.
pub proof fn lemma_apply_keeps_wf(state: State, step: Step, more: nat)
    requires
        state.wf(),
        spacious(state, more + 1),
    ensures
        apply(state, step).wf(),
        spacious(apply(state, step), more),
{
    match step {
        Step::Submit(submission) => {
            lemma_submit_offer_keeps_wf(state, submission.sdp, submission.seed);
        },
        Step::Await => {
            lemma_steps_keep_wf(state, 0, 0, Seq::empty());
            if state.offer is None {
                lemma_await_on_empty_waits(state);
            }
        },
        Step::Cancel(ticket) => {
            lemma_steps_keep_wf(state, ticket, 0, Seq::empty());
        },
        Step::Register(seed) => {
            lemma_register_keeps_wf(state, seed);
        },
        Step::Answer(token, answer) => {
            lemma_steps_keep_wf(state, 0, token, answer);
        },
        Step::Release(token) => {
            lemma_steps_keep_wf(state, 0, token, Seq::empty());
        },
    }
}

/// Every run of operations leads from a reachable state to a reachable one.
pub proof fn lemma_run_keeps_wf(state: State, steps: Seq<Step>, more: nat)
    requires
        state.wf(),
        spacious(state, steps.len() + more),
    ensures
        run(state, steps).wf(),
        spacious(run(state, steps), more),
    decreases steps.len(),
{
    if steps.len() > 0 {
        lemma_run_keeps_wf(state, steps.drop_last(), more + 1);
        lemma_apply_keeps_wf(run(state, steps.drop_last()), steps.last(), more);
    }
}

/// Whether a run of operations leaves the wait under `ticket` alone: it
/// neither submits an offer nor gives that wait up.
pub open spec fn leaves_waiting(steps: Seq<Step>, ticket: u128) -> bool {
    forall|i: int|
        0 <= i < steps.len() ==> !(#[trigger] steps[i] is Submit) && steps[i] != Step::Cancel(
            ticket,
        )
}

/// A wait stays through every operation but the submission of an offer
/// and its own cancellation, and the channel it waits on stays empty.
pub proof fn lemma_wait_stays(state: State, steps: Seq<Step>, ticket: u128)
    requires
        state.wf(),
        state.waiting.contains(ticket),
        leaves_waiting(steps, ticket),
    ensures
        run(state, steps).waiting.contains(ticket),
        run(state, steps).offer is None,
    decreases steps.len(),
{
    if steps.len() > 0 {
        lemma_wait_stays(state, steps.drop_last(), ticket);
        assert(!(steps[steps.len() - 1] is Submit));
    }
}

/// For every run of operations: a wait that is registered before an offer
/// is submitted completes with that offer. The submission finds the
/// channel empty, stores its offer, and releases the wait; whatever was
/// the offer before the wait began is never handed to it.
pub proof fn lemma_wait_completes_with_next_offer(
    state: State,
    steps: Seq<Step>,
    ticket: u128,
    submission: Submission,
)
    requires
        state.wf(),
        state.waiting.contains(ticket),
        leaves_waiting(steps, ticket),
    ensures
        run(state, steps).waiting.contains(ticket),
        run(state, steps).offer is None,
        run(state, steps.push(Step::Submit(submission))).offer == Some(
            run(state, steps).next_offer(submission.sdp, submission.seed),
        ),
        run(state, steps).next_offer(submission.sdp, submission.seed).sdp == submission.sdp,
        !run(state, steps.push(Step::Submit(submission))).waiting.contains(ticket),
{
    lemma_wait_stays(state, steps, ticket);
    let all = steps.push(Step::Submit(submission));
    assert(all.drop_last() == steps);
}

/// After a run of operations that ends in the submission of an offer,
/// nobody waits, and that offer is the current one: a request that asks
/// next is served with it.
pub proof fn lemma_last_offer_is_current(state: State, steps: Seq<Step>, submission: Submission)
    ensures
        run(state, steps.push(Step::Submit(submission))).waiting == Set::<u128>::empty(),
        run(state, steps.push(Step::Submit(submission))).await_outcome() == Await::Ready(
            run(state, steps).next_offer(submission.sdp, submission.seed),
        ),
{
    let all = steps.push(Step::Submit(submission));
    assert(all.drop_last() == steps);
}

/// An answer submitted a second time for the same session is refused
/// with a conflict, and the answer filed first stays as it is.
pub proof fn lemma_second_answer_conflicts(
    state: State,
    token: u128,
    first: Seq<char>,
    second: Seq<char>,
)
    requires
        state.answer_outcome(token, first) is Ok,
    ensures
        state.submit_answer(token, first).answer(token) == Some(first),
        state.submit_answer(token, first).answer_outcome(token, second) == Err::<
            (),
            SignalError,
        >(SignalError::Conflict),
        state.submit_answer(token, first).submit_answer(token, second) == state.submit_answer(
            token,
            first,
        ),
{
}

/// A subscriber that asks after an offer was published is handed that
/// offer under the location that the publisher was told, whatever the
/// subscriber's seed.
pub proof fn lemma_subscriber_gets_the_published_offer(
    state: State,
    form: Seq<char>,
    seed: u128,
    subscriber_seed: u128,
)
    ensures
        state.submit_offer(form, seed).register_subscriber(subscriber_seed).await_outcome()
            == Await::Ready(state.next_offer(form, seed)),
        created(state.next_offer(form, seed)).body == crate::reply::BodyView::Sdp(form),
        subscribed(state.submit_offer(form, seed), subscriber_seed).offer == Some(
            state.next_offer(form, seed),
        ),
{
}

/// An answer patched to the location of a published offer is taken, and
/// the same patch a second time is refused with a conflict.
pub proof fn lemma_offer_location_takes_one_answer(
    state: State,
    form: Seq<char>,
    seed: u128,
    first: Seq<char>,
    second: Seq<char>,
)
    ensures
        ({
            let offered = state.submit_offer(form, seed);
            let path = hex_text(state.next_offer(form, seed).id);
            let token = state.next_offer(form, seed).id;
            &&& patch_outcome(offered, path, first) is Ok
            &&& patch_outcome(offered.submit_answer(token, first), path, second) == Err::<
                (),
                SignalError,
            >(SignalError::Conflict)
            &&& offered.submit_answer(token, first).answer(token) == Some(first)
        }),
{
    let token = state.next_offer(form, seed).id;
    lemma_text_round_trip(ResourceId { token });
}

/// An answer is taken exactly where the session is live and has none.
pub proof fn lemma_answer_outcomes(state: State, token: u128, answer: Seq<char>)
    ensures
        state.answer_outcome(token, answer) is Ok <==> state.slots.contains_key(token)
            && state.slots[token] is None,
        state.answer_outcome(token, answer) == Err::<(), SignalError>(SignalError::NotFound)
            <==> !state.slots.contains_key(token),
        state.answer_outcome(token, answer) == Err::<(), SignalError>(SignalError::Conflict)
            <==> state.slots.contains_key(token) && state.slots[token] is Some,
        state.answer_outcome(token, answer) is Err ==> state.submit_answer(token, answer)
            == state,
{
}

/// The state after a run of registrations, one seed each.
pub open spec fn register_all(state: State, seeds: Seq<u128>) -> State
    decreases seeds.len(),
{
    if seeds.len() == 0 {
        state
    } else {
        register_all(state, seeds.drop_last()).register_subscriber(seeds.last())
    }
}

/// The identifiers that a run of registrations hands out, in its order.
pub open spec fn registered(state: State, seeds: Seq<u128>) -> Seq<u128>
    decreases seeds.len(),
{
    if seeds.len() == 0 {
        Seq::empty()
    } else {
        registered(state, seeds.drop_last()).push(
            register_all(state, seeds.drop_last()).next_subscriber(seeds.last()),
        )
    }
}

/// However many subscribers are registered, and whatever their seeds,
/// each gets an identifier of its own: no two of them are the same, none
/// is that of a session that was live before, and all are live after.
pub proof fn lemma_registrations_are_distinct(state: State, seeds: Seq<u128>)
    requires
        state.wf(),
        roomy(state, seeds.len()),
    ensures
        registered(state, seeds).len() == seeds.len(),
        registered(state, seeds).no_duplicates(),
        forall|i: int|
            0 <= i < seeds.len() ==> !state.slots.contains_key(
                #[trigger] registered(state, seeds)[i],
            ),
        forall|i: int|
            0 <= i < seeds.len() ==> register_all(state, seeds).slots.contains_key(
                #[trigger] registered(state, seeds)[i],
            ),
        forall|token: u128|
            state.slots.contains_key(token) ==> register_all(state, seeds).slots.contains_key(
                token,
            ),
        register_all(state, seeds).wf(),
        register_all(state, seeds).slots.dom().len() == state.slots.dom().len() + seeds.len(),
    decreases seeds.len(),
{
    if seeds.len() > 0 {
        let earlier = seeds.drop_last();
        lemma_registrations_are_distinct(state, earlier);
        let before = register_all(state, earlier);
        lemma_fresh_identifier(before, seeds.last());
        let ids = registered(state, earlier);
        let id = before.next_subscriber(seeds.last());
        assert forall|i: int, j: int|
            0 <= i < ids.push(id).len() && 0 <= j < ids.push(id).len() && i != j implies ids.push(
            id,
        )[i] != ids.push(id)[j] by {
            if i < ids.len() {
                assert(before.slots.contains_key(ids[i]));
            }
            if j < ids.len() {
                assert(before.slots.contains_key(ids[j]));
            }
        }
        assert forall|i: int| 0 <= i < seeds.len() implies !state.slots.contains_key(
            #[trigger] registered(state, seeds)[i],
        ) by {
            if i < ids.len() {
                assert(registered(state, seeds)[i] == ids[i]);
            }
        }
        assert forall|i: int| 0 <= i < seeds.len() implies register_all(
            state,
            seeds,
        ).slots.contains_key(#[trigger] registered(state, seeds)[i]) by {
            if i < ids.len() {
                assert(registered(state, seeds)[i] == ids[i]);
                assert(before.slots.contains_key(ids[i]));
            }
        }
    }
}

} // verus!
